use vstd::prelude::*;

use super::ast::{
    AssignmentModel, DeclarationModel, ExpressionModel, HeadModel, StatementModel, ValueModel,
};
use super::token::{
    end_of_input, unexpected, ControlCharacter, Keyword, Operator, Positioned, TokenModel,
    TokenType,
};
use super::types::{LiteralModel, TypeModel};
use super::{ParseErrorModel, Rule};

verus! {

/// Where the text of a token sequence ends: after its last token, and at
/// the largest position there is where that would lie beyond it.
pub open spec fn end_position(tokens: Seq<Positioned>) -> nat {
    if tokens.len() == 0 {
        0
    } else if tokens.last().start + tokens.last().length <= usize::MAX {
        tokens.last().start + tokens.last().length
    } else {
        usize::MAX as nat
    }
}

/// The token at index `at`. Past the last token stands the end of input.
pub open spec fn token_at(tokens: Seq<Positioned>, at: int) -> Positioned {
    if 0 <= at < tokens.len() {
        tokens[at]
    } else {
        end_of_input(end_position(tokens))
    }
}

/// Passes the token at `at` where it is of the kind `kind`, and gives the
/// index after it.
pub open spec fn spec_expect(tokens: Seq<Positioned>, at: int, kind: TokenType) -> Result<
    int,
    ParseErrorModel,
> {
    if token_at(tokens, at).token.token_type() == kind {
        Ok(at + 1)
    } else {
        Err(unexpected(token_at(tokens, at), seq![kind]))
    }
}

/// Reads the identifier at `at`.
pub open spec fn spec_name(tokens: Seq<Positioned>, at: int) -> Result<
    (Seq<char>, int),
    ParseErrorModel,
> {
    match token_at(tokens, at).token {
        TokenModel::Identifier(name) => Ok((name, at + 1)),
        _ => Err(unexpected(token_at(tokens, at), seq![TokenType::Identifier])),
    }
}

/// Reads the type at `at`: the name of a built-in type stands for that type,
/// and any other identifier for the struct of that name.
pub open spec fn spec_type(tokens: Seq<Positioned>, at: int) -> Result<
    (TypeModel, int),
    ParseErrorModel,
> {
    match token_at(tokens, at).token {
        TokenModel::Keyword(Keyword::TypeName(name)) => Ok((name.spec_to_type()@, at + 1)),
        TokenModel::Identifier(name) => Ok((TypeModel::Struct(name), at + 1)),
        _ => Err(
            unexpected(token_at(tokens, at), seq![TokenType::TypeName, TokenType::Identifier]),
        ),
    }
}

/// The literal that an integer is under a type annotation. Under the
/// annotation of an integer type it has that type's width, and is no literal
/// where it does not fit. Under any other annotation, and under none, it is
/// a `Number` where it fits 32 bits and a `Long` else.
pub open spec fn integer_literal(annotation: Option<TypeModel>, value: i64) -> Option<
    LiteralModel,
> {
    match annotation {
        Some(TypeModel::Byte) => if i8::MIN <= value <= i8::MAX {
            Some(LiteralModel::Byte(value as i8))
        } else {
            None
        },
        Some(TypeModel::Short) => if i16::MIN <= value <= i16::MAX {
            Some(LiteralModel::Short(value as i16))
        } else {
            None
        },
        Some(TypeModel::Int) => if i32::MIN <= value <= i32::MAX {
            Some(LiteralModel::Int(value as i32))
        } else {
            None
        },
        Some(TypeModel::Long) => Some(LiteralModel::Long(value)),
        Some(TypeModel::Number) => if i32::MIN <= value <= i32::MAX {
            Some(LiteralModel::Number(value as i32))
        } else {
            None
        },
        _ => if i32::MIN <= value <= i32::MAX {
            Some(LiteralModel::Number(value as i32))
        } else {
            Some(LiteralModel::Long(value))
        },
    }
}

/// The literal that a number with a fraction is under a type annotation: a
/// `Float` under the annotation `f32`, and a `Double` else.
pub open spec fn float_literal(annotation: Option<TypeModel>, literal: Seq<char>) -> LiteralModel {
    match annotation {
        Some(TypeModel::Float) => LiteralModel::Float(literal),
        _ => LiteralModel::Double(literal),
    }
}

/// The kinds of token that a value can start with.
pub open spec fn value_starts() -> Seq<TokenType> {
    seq![
        TokenType::Integer,
        TokenType::Float,
        TokenType::String,
        TokenType::Keyword(Keyword::True),
        TokenType::Keyword(Keyword::False),
        TokenType::Keyword(Keyword::Nil),
        TokenType::Identifier,
        TokenType::ControlCharacter(ControlCharacter::LeftParen),
    ]
}

/// Reads an operand at `at`: a literal, a name, or a value in parentheses.
///
/// An integer that does not fit the width that `annotation` gives it is
/// reported at its token, under the rule on the range of literals.
pub open spec fn spec_operand(
    tokens: Seq<Positioned>,
    at: int,
    annotation: Option<TypeModel>,
) -> Result<(ValueModel, int), ParseErrorModel>
    decreases tokens.len() - at, 0int,
{
    let found = token_at(tokens, at);
    match found.token {
        TokenModel::Integer(value) => match integer_literal(annotation, value) {
            Some(literal) => Ok((ValueModel::Value(literal), at + 1)),
            None => Err(
                ParseErrorModel {
                    at: found,
                    expected: seq![TokenType::Integer],
                    rule: Rule::LiteralRange,
                },
            ),
        },
        TokenModel::Float(literal) => Ok(
            (ValueModel::Value(float_literal(annotation, literal)), at + 1),
        ),
        TokenModel::String(text) => Ok((ValueModel::Value(LiteralModel::String(text)), at + 1)),
        TokenModel::Keyword(Keyword::True) => Ok(
            (ValueModel::Value(LiteralModel::Bool(true)), at + 1),
        ),
        TokenModel::Keyword(Keyword::False) => Ok(
            (ValueModel::Value(LiteralModel::Bool(false)), at + 1),
        ),
        TokenModel::Keyword(Keyword::Nil) => Ok((ValueModel::Value(LiteralModel::Nil), at + 1)),
        TokenModel::Identifier(name) => Ok((ValueModel::Identifier(name), at + 1)),
        TokenModel::ControlCharacter(ControlCharacter::LeftParen) => {
            if 0 <= at < tokens.len() {
                match spec_binary(tokens, at + 1, annotation, 1) {
                    Ok((inner, next)) => match spec_expect(
                        tokens,
                        next,
                        TokenType::ControlCharacter(ControlCharacter::RightParen),
                    ) {
                        Ok(after) => Ok((inner, after)),
                        Err(error) => Err(error),
                    },
                    Err(error) => Err(error),
                }
            } else {
                Err(unexpected(found, value_starts()))
            }
        },
        _ => Err(unexpected(found, value_starts())),
    }
}

/// Reads at `at` an operand and the operations that follow it, as far as
/// their operators bind at least as tightly as `least`.
pub open spec fn spec_binary(
    tokens: Seq<Positioned>,
    at: int,
    annotation: Option<TypeModel>,
    least: int,
) -> Result<(ValueModel, int), ParseErrorModel>
    decreases tokens.len() - at, 1int,
{
    match spec_operand(tokens, at, annotation) {
        Ok((left, next)) => if at < next <= tokens.len() {
            spec_climb(tokens, next, annotation, least, left)
        } else {
            Ok((left, next))
        },
        Err(error) => Err(error),
    }
}

/// Continues the value `left`, which ends before `at`, with the operations
/// that follow it, as far as their operators bind at least as tightly as
/// `least`. Each right operand takes the operations that bind tighter than
/// its own operator, so that operators of equal rank group from the left.
pub open spec fn spec_climb(
    tokens: Seq<Positioned>,
    at: int,
    annotation: Option<TypeModel>,
    least: int,
    left: ValueModel,
) -> Result<(ValueModel, int), ParseErrorModel>
    decreases tokens.len() - at, 2int,
{
    match token_at(tokens, at).token {
        TokenModel::Operator(operator) => if operator.spec_binding() >= least && 0 <= at
            < tokens.len() {
            match spec_binary(tokens, at + 1, annotation, operator.spec_binding() + 1) {
                Ok((right, next)) => if at < next <= tokens.len() {
                    spec_climb(
                        tokens,
                        next,
                        annotation,
                        least,
                        ValueModel::Math(Box::new(left), operator, Box::new(right)),
                    )
                } else {
                    Ok((left, at))
                },
                Err(error) => Err(error),
            }
        } else {
            Ok((left, at))
        },
        _ => Ok((left, at)),
    }
}

/// Reads the value at `at`: operands joined by binary operators.
///
/// Multiplication and division bind tightest, then addition and subtraction,
/// then the comparisons, then the bitwise operators, then the logical
/// operators; operators of equal rank group from the left. The value ends
/// before the first token that continues no operation.
pub open spec fn spec_value(tokens: Seq<Positioned>, at: int, annotation: Option<TypeModel>) -> Result<
    (ValueModel, int),
    ParseErrorModel,
> {
    spec_binary(tokens, at, annotation, 1)
}

/// A value that is read takes at least one token and ends within the token
/// sequence.
pub proof fn lemma_operand_advances(
    tokens: Seq<Positioned>,
    at: int,
    annotation: Option<TypeModel>,
)
    requires
        0 <= at,
    ensures
        spec_operand(tokens, at, annotation) matches Ok((_, next)) ==> at < next <= tokens.len(),
    decreases tokens.len() - at, 0int,
{
    if let TokenModel::ControlCharacter(ControlCharacter::LeftParen) = token_at(tokens, at).token {
        if at < tokens.len() {
            lemma_binary_advances(tokens, at + 1, annotation, 1);
        }
    }
}

/// A value that is read takes at least one token and ends within the token
/// sequence.
pub proof fn lemma_binary_advances(
    tokens: Seq<Positioned>,
    at: int,
    annotation: Option<TypeModel>,
    least: int,
)
    requires
        0 <= at,
    ensures
        spec_binary(tokens, at, annotation, least) matches Ok((_, next)) ==> at < next
            <= tokens.len(),
    decreases tokens.len() - at, 1int,
{
    lemma_operand_advances(tokens, at, annotation);
    if let Ok((left, next)) = spec_operand(tokens, at, annotation) {
        lemma_climb_advances(tokens, next, annotation, least, left);
    }
}

/// Continuing a value never moves backwards and ends within the token
/// sequence.
pub proof fn lemma_climb_advances(
    tokens: Seq<Positioned>,
    at: int,
    annotation: Option<TypeModel>,
    least: int,
    left: ValueModel,
)
    requires
        0 <= at <= tokens.len(),
    ensures
        spec_climb(tokens, at, annotation, least, left) matches Ok((_, next)) ==> at <= next
            <= tokens.len(),
    decreases tokens.len() - at, 2int,
{
    if let TokenModel::Operator(operator) = token_at(tokens, at).token {
        if operator.spec_binding() >= least && at < tokens.len() {
            lemma_binary_advances(tokens, at + 1, annotation, operator.spec_binding() + 1);
            if let Ok((right, next)) = spec_binary(
                tokens,
                at + 1,
                annotation,
                operator.spec_binding() + 1,
            ) {
                lemma_climb_advances(
                    tokens,
                    next,
                    annotation,
                    least,
                    ValueModel::Math(Box::new(left), operator, Box::new(right)),
                );
            }
        }
    }
}

/// The punctuation symbol `symbol` as a kind of token.
pub open spec fn symbol(symbol: ControlCharacter) -> TokenType {
    TokenType::ControlCharacter(symbol)
}

/// The reserved word `word` as a kind of token.
pub open spec fn word(word: Keyword) -> TokenType {
    TokenType::Keyword(word)
}

/// Reads at `at` a name, its type annotation where one is written, the sign
/// `=` and a value, whose literals the annotation types.
///
/// Where `typed` is set the annotation has to be written: a name that is
/// followed by anything but `:` is then reported at that token, under the
/// rule that a constant requires a type annotation.
pub open spec fn spec_binding(tokens: Seq<Positioned>, at: int, typed: bool) -> Result<
    (AssignmentModel, int),
    ParseErrorModel,
> {
    match spec_name(tokens, at) {
        Err(error) => Err(error),
        Ok((name, after_name)) => {
            let found = token_at(tokens, after_name);
            if found.token.token_type() == symbol(ControlCharacter::TypeClarify) {
                match spec_type(tokens, after_name + 1) {
                    Err(error) => Err(error),
                    Ok((ty, after_type)) => match spec_expect(
                        tokens,
                        after_type,
                        symbol(ControlCharacter::Assign),
                    ) {
                        Err(error) => Err(error),
                        Ok(after_sign) => match spec_value(tokens, after_sign, Some(ty)) {
                            Err(error) => Err(error),
                            Ok((var, next)) => Ok(
                                (AssignmentModel { name, var_type: Some(ty), var }, next),
                            ),
                        },
                    },
                }
            } else if typed {
                Err(
                    ParseErrorModel {
                        at: found,
                        expected: seq![symbol(ControlCharacter::TypeClarify)],
                        rule: Rule::ConstTypeAnnotation,
                    },
                )
            } else if found.token.token_type() == symbol(ControlCharacter::Assign) {
                match spec_value(tokens, after_name + 1, None) {
                    Err(error) => Err(error),
                    Ok((var, next)) => Ok((AssignmentModel { name, var_type: None, var }, next)),
                }
            } else {
                Err(
                    unexpected(
                        found,
                        seq![symbol(ControlCharacter::TypeClarify), symbol(ControlCharacter::Assign)],
                    ),
                )
            }
        },
    }
}

/// Reads the expression at `at`: `let` with a name, an optional type
/// annotation, `=` and a value; or a name, `=` and a value.
pub open spec fn spec_expression(tokens: Seq<Positioned>, at: int) -> Result<
    (ExpressionModel, int),
    ParseErrorModel,
> {
    match token_at(tokens, at).token {
        TokenModel::Keyword(Keyword::VarDeceleration) => match spec_binding(tokens, at + 1, false) {
            Err(error) => Err(error),
            Ok((binding, next)) => Ok(
                (ExpressionModel::VarDec(binding.name, binding.var_type, binding.var), next),
            ),
        },
        TokenModel::Identifier(name) => match spec_expect(
            tokens,
            at + 1,
            symbol(ControlCharacter::Assign),
        ) {
            Err(error) => Err(error),
            Ok(after_sign) => match spec_value(tokens, after_sign, None) {
                Err(error) => Err(error),
                Ok((value, next)) => Ok((ExpressionModel::Assign(name, value), next)),
            },
        },
        _ => Err(
            unexpected(
                token_at(tokens, at),
                seq![word(Keyword::VarDeceleration), TokenType::Identifier],
            ),
        ),
    }
}

/// Reads at `at` a bound of a loop that is unrolled: a literal integer that
/// fits 32 bits. One that does not fit is reported under the rule on the
/// range of literals.
pub open spec fn spec_bound(tokens: Seq<Positioned>, at: int) -> Result<
    (i32, int),
    ParseErrorModel,
> {
    let found = token_at(tokens, at);
    match found.token {
        TokenModel::Integer(value) => if i32::MIN <= value <= i32::MAX {
            Ok((value as i32, at + 1))
        } else {
            Err(
                ParseErrorModel {
                    at: found,
                    expected: seq![TokenType::Integer],
                    rule: Rule::LiteralRange,
                },
            )
        },
        _ => Err(unexpected(found, seq![TokenType::Integer])),
    }
}

/// The kinds of token that a statement can start with.
pub open spec fn statement_starts() -> Seq<TokenType> {
    seq![
        word(Keyword::For),
        word(Keyword::Static),
        word(Keyword::While),
        word(Keyword::If),
        word(Keyword::VarDeceleration),
        TokenType::Identifier,
    ]
}

/// The kinds of token that can stand where a block goes on or ends: the
/// closing brace, and what a statement can start with.
pub open spec fn block_continues() -> Seq<TokenType> {
    seq![symbol(ControlCharacter::RBrace)] + statement_starts()
}

/// Reads the head of the loop with three clauses, whose `for` stands at
/// `at`: `for ( expression ; value ; expression )`.
pub open spec fn spec_for_head(tokens: Seq<Positioned>, at: int) -> Result<
    (HeadModel, int),
    ParseErrorModel,
> {
    match spec_expression(tokens, at + 2) {
        Err(error) => Err(error),
        Ok((first, at1)) => match spec_expect(tokens, at1, symbol(ControlCharacter::EndOfLine)) {
            Err(error) => Err(error),
            Ok(at2) => match spec_value(tokens, at2, None) {
                Err(error) => Err(error),
                Ok((condition, at3)) => match spec_expect(
                    tokens,
                    at3,
                    symbol(ControlCharacter::EndOfLine),
                ) {
                    Err(error) => Err(error),
                    Ok(at4) => match spec_expression(tokens, at4) {
                        Err(error) => Err(error),
                        Ok((step, at5)) => match spec_expect(
                            tokens,
                            at5,
                            symbol(ControlCharacter::RightParen),
                        ) {
                            Err(error) => Err(error),
                            Ok(next) => Ok((HeadModel::For(first, condition, step), next)),
                        },
                    },
                },
            },
        },
    }
}

/// Reads the head of the loop that is unrolled, whose `static` stands at
/// `at`: `static for name in integer , integer , integer`.
pub open spec fn spec_static_head(tokens: Seq<Positioned>, at: int) -> Result<
    (HeadModel, int),
    ParseErrorModel,
> {
    match spec_expect(tokens, at + 1, word(Keyword::For)) {
        Err(error) => Err(error),
        Ok(at1) => match spec_name(tokens, at1) {
            Err(error) => Err(error),
            Ok((variable, at2)) => match spec_expect(tokens, at2, word(Keyword::In)) {
                Err(error) => Err(error),
                Ok(at3) => match spec_bound(tokens, at3) {
                    Err(error) => Err(error),
                    Ok((start, at4)) => match spec_expect(
                        tokens,
                        at4,
                        symbol(ControlCharacter::Comma),
                    ) {
                        Err(error) => Err(error),
                        Ok(at5) => match spec_bound(tokens, at5) {
                            Err(error) => Err(error),
                            Ok((end, at6)) => match spec_expect(
                                tokens,
                                at6,
                                symbol(ControlCharacter::Comma),
                            ) {
                                Err(error) => Err(error),
                                Ok(at7) => match spec_bound(tokens, at7) {
                                    Err(error) => Err(error),
                                    Ok((step, next)) => Ok(
                                        (HeadModel::StaticFor(variable, start, end, step), next),
                                    ),
                                },
                            },
                        },
                    },
                },
            },
        },
    }
}

/// Reads at `at` the head of a statement that owns a block: all of the
/// statement that stands before its block.
///
/// - `for ( expression ; value ; expression )` heads the loop with three
///   clauses;
/// - `for name in name` heads the loop over a named collection;
/// - `static for name in integer , integer , integer` heads the loop that is
///   unrolled, from its start to its end by its step;
/// - `while value` and `if value`.
pub open spec fn spec_head(tokens: Seq<Positioned>, at: int) -> Result<
    (HeadModel, int),
    ParseErrorModel,
> {
    let found = token_at(tokens, at);
    match found.token {
        TokenModel::Keyword(Keyword::For) => match token_at(tokens, at + 1).token {
            TokenModel::ControlCharacter(ControlCharacter::LeftParen) => spec_for_head(tokens, at),
            TokenModel::Identifier(element) => match spec_expect(
                tokens,
                at + 2,
                word(Keyword::In),
            ) {
                Err(error) => Err(error),
                Ok(at1) => match spec_name(tokens, at1) {
                    Err(error) => Err(error),
                    Ok((source, next)) => Ok((HeadModel::ForList(element, source), next)),
                },
            },
            _ => Err(
                unexpected(
                    token_at(tokens, at + 1),
                    seq![symbol(ControlCharacter::LeftParen), TokenType::Identifier],
                ),
            ),
        },
        TokenModel::Keyword(Keyword::Static) => spec_static_head(tokens, at),
        TokenModel::Keyword(Keyword::While) => match spec_value(tokens, at + 1, None) {
            Err(error) => Err(error),
            Ok((condition, next)) => Ok((HeadModel::While(condition), next)),
        },
        TokenModel::Keyword(Keyword::If) => match spec_value(tokens, at + 1, None) {
            Err(error) => Err(error),
            Ok((condition, next)) => Ok((HeadModel::If(condition), next)),
        },
        _ => Err(unexpected(found, statement_starts())),
    }
}

/// The statement with the head `head` and the block `body`.
pub open spec fn with_body(head: HeadModel, body: Seq<StatementModel>) -> StatementModel {
    match head {
        HeadModel::For(first, condition, step) => StatementModel::For(
            first,
            condition,
            step,
            body,
        ),
        HeadModel::ForList(element, source) => StatementModel::ForList(element, source, body),
        HeadModel::StaticFor(variable, start, end, step) => StatementModel::StaticFor(
            variable,
            start,
            end,
            step,
            body,
        ),
        HeadModel::While(condition) => StatementModel::While(condition, body),
        HeadModel::If(condition) => StatementModel::If(condition, body),
    }
}

/// Whether the statement that starts with `token` is an expression.
pub open spec fn starts_expression(token: TokenModel) -> bool {
    token == TokenModel::Keyword(Keyword::VarDeceleration) || token is Identifier
}

/// Reads the statement at `at`: an expression followed by `;`, or a head
/// followed by its block.
pub open spec fn spec_statement(tokens: Seq<Positioned>, at: int) -> Result<
    (StatementModel, int),
    ParseErrorModel,
>
    decreases tokens.len() - at, 0int,
{
    if starts_expression(token_at(tokens, at).token) {
        match spec_expression(tokens, at) {
            Err(error) => Err(error),
            Ok((expression, at1)) => match spec_expect(
                tokens,
                at1,
                symbol(ControlCharacter::EndOfLine),
            ) {
                Err(error) => Err(error),
                Ok(next) => Ok((StatementModel::Expression(expression), next)),
            },
        }
    } else {
        match spec_head(tokens, at) {
            Err(error) => Err(error),
            Ok((head, at1)) => if at < at1 <= tokens.len() {
                match spec_block(tokens, at1) {
                    Err(error) => Err(error),
                    Ok((body, next)) => Ok((with_body(head, body), next)),
                }
            } else {
                Err(unexpected(token_at(tokens, at), statement_starts()))
            },
        }
    }
}

/// Reads the block at `at`: `{`, statements, `}`.
pub open spec fn spec_block(tokens: Seq<Positioned>, at: int) -> Result<
    (Seq<StatementModel>, int),
    ParseErrorModel,
>
    decreases tokens.len() - at, 2int,
{
    match spec_expect(tokens, at, symbol(ControlCharacter::LBrace)) {
        Err(error) => Err(error),
        Ok(inside) => if 0 <= at < tokens.len() {
            spec_statements(tokens, inside, Seq::empty())
        } else {
            Err(unexpected(token_at(tokens, at), seq![symbol(ControlCharacter::LBrace)]))
        },
    }
}

/// Reads the statements of a block from `at` up to and with its closing
/// brace, after the statements `done`, which were read already.
pub open spec fn spec_statements(
    tokens: Seq<Positioned>,
    at: int,
    done: Seq<StatementModel>,
) -> Result<(Seq<StatementModel>, int), ParseErrorModel>
    decreases tokens.len() - at, 1int,
{
    let found = token_at(tokens, at);
    if found.token.token_type() == symbol(ControlCharacter::RBrace) {
        Ok((done, at + 1))
    } else if !statement_starts().contains(found.token.token_type()) {
        Err(unexpected(found, block_continues()))
    } else {
        match spec_statement(tokens, at) {
            Err(error) => Err(error),
            Ok((statement, next)) => if at < next <= tokens.len() {
                spec_statements(tokens, next, done.push(statement))
            } else {
                Err(unexpected(found, block_continues()))
            },
        }
    }
}

/// A name with its value that is read takes at least one token and ends
/// within the token sequence.
pub proof fn lemma_binding_advances(tokens: Seq<Positioned>, at: int, typed: bool)
    requires
        0 <= at,
    ensures
        spec_binding(tokens, at, typed) matches Ok((_, next)) ==> at < next <= tokens.len(),
{
    lemma_binary_advances(tokens, at + 2, None, 1);
    if let Ok((ty, _)) = spec_type(tokens, at + 2) {
        lemma_binary_advances(tokens, at + 4, Some(ty), 1);
    }
}

/// An expression that is read takes at least one token and ends within the
/// token sequence.
pub proof fn lemma_expression_advances(tokens: Seq<Positioned>, at: int)
    requires
        0 <= at,
    ensures
        spec_expression(tokens, at) matches Ok((_, next)) ==> at < next <= tokens.len(),
{
    lemma_binding_advances(tokens, at + 1, false);
    lemma_binary_advances(tokens, at + 2, None, 1);
}

/// The head of a loop with three clauses that is read ends after its `for`
/// and within the token sequence.
pub proof fn lemma_for_head_advances(tokens: Seq<Positioned>, at: int)
    requires
        0 <= at,
    ensures
        spec_for_head(tokens, at) matches Ok((_, next)) ==> at < next <= tokens.len(),
{
    lemma_expression_advances(tokens, at + 2);
    if let Ok((_, at1)) = spec_expression(tokens, at + 2) {
        lemma_binary_advances(tokens, at1 + 1, None, 1);
        if let Ok((_, at3)) = spec_value(tokens, at1 + 1, None) {
            lemma_expression_advances(tokens, at3 + 1);
        }
    }
}

/// A head that is read takes at least one token and ends within the token
/// sequence.
pub proof fn lemma_head_advances(tokens: Seq<Positioned>, at: int)
    requires
        0 <= at,
    ensures
        spec_head(tokens, at) matches Ok((_, next)) ==> at < next <= tokens.len(),
{
    lemma_for_head_advances(tokens, at);
    lemma_binary_advances(tokens, at + 1, None, 1);
}

/// A statement that is read takes at least one token and ends within the
/// token sequence.
pub proof fn lemma_statement_advances(tokens: Seq<Positioned>, at: int)
    requires
        0 <= at,
    ensures
        spec_statement(tokens, at) matches Ok((_, next)) ==> at < next <= tokens.len(),
    decreases tokens.len() - at, 0int,
{
    lemma_expression_advances(tokens, at);
    lemma_head_advances(tokens, at);
    if !starts_expression(token_at(tokens, at).token) {
        if let Ok((_, at1)) = spec_head(tokens, at) {
            lemma_block_advances(tokens, at1);
        }
    }
}

/// A block that is read takes at least two tokens and ends within the token
/// sequence.
pub proof fn lemma_block_advances(tokens: Seq<Positioned>, at: int)
    requires
        0 <= at,
    ensures
        spec_block(tokens, at) matches Ok((_, next)) ==> at + 1 < next <= tokens.len(),
    decreases tokens.len() - at, 2int,
{
    if at < tokens.len() {
        lemma_statements_advance(tokens, at + 1, Seq::empty());
    }
}

/// The statements of a block that are read end after at least one token and
/// within the token sequence.
pub proof fn lemma_statements_advance(
    tokens: Seq<Positioned>,
    at: int,
    done: Seq<StatementModel>,
)
    requires
        0 <= at,
    ensures
        spec_statements(tokens, at, done) matches Ok((_, next)) ==> at < next <= tokens.len(),
    decreases tokens.len() - at, 1int,
{
    if let Ok((statement, next)) = spec_statement(tokens, at) {
        if at < next <= tokens.len() {
            lemma_statements_advance(tokens, next, done.push(statement));
        }
    }
}

/// The kind of the token at index `at`.
pub open spec fn kind_of(tokens: Seq<Positioned>, at: int) -> TokenType {
    token_at(tokens, at).token.token_type()
}

/// Reads the import whose `use` stands at `at`: `use`, a string literal or
/// an unquoted path, and `;`. The path is recorded as it is written.
pub open spec fn spec_import(tokens: Seq<Positioned>, at: int) -> Result<
    (DeclarationModel, int),
    ParseErrorModel,
> {
    let operand = token_at(tokens, at + 1);
    match operand.token {
        TokenModel::String(path) | TokenModel::FilePath(path) => match spec_expect(
            tokens,
            at + 2,
            symbol(ControlCharacter::EndOfLine),
        ) {
            Err(error) => Err(error),
            Ok(next) => Ok((DeclarationModel::UseFile(path), next)),
        },
        _ => Err(unexpected(operand, seq![TokenType::String, TokenType::FilePath])),
    }
}

/// Reads the constant whose `const` stands at `at`: `const`, a name, a type
/// annotation, `=`, a value and `;`. A constant without a type annotation is
/// an error.
pub open spec fn spec_const(tokens: Seq<Positioned>, at: int) -> Result<
    (DeclarationModel, int),
    ParseErrorModel,
> {
    match spec_binding(tokens, at + 1, true) {
        Err(error) => Err(error),
        Ok((binding, at1)) => match spec_expect(tokens, at1, symbol(ControlCharacter::EndOfLine)) {
            Err(error) => Err(error),
            Ok(next) => Ok((DeclarationModel::ConstDec(binding), next)),
        },
    }
}

/// Whether an entry of `list` has the name `name`.
pub open spec fn has_name<T>(list: Seq<(Seq<char>, T)>, name: Seq<char>) -> bool {
    exists|i: int| 0 <= i < list.len() && (#[trigger] list[i]).0 == name
}

/// Whether no two entries of `list` have the same name.
pub open spec fn distinct_names<T>(list: Seq<(Seq<char>, T)>) -> bool {
    forall|i: int, j: int|
        0 <= i < j < list.len() ==> (#[trigger] list[i]).0 != (#[trigger] list[j]).0
}

/// The error that reports the name at `found` as one that is taken already.
pub open spec fn taken(found: Positioned) -> ParseErrorModel {
    ParseErrorModel { at: found, expected: seq![TokenType::Identifier], rule: Rule::DuplicateName }
}

/// Reads the fields of a struct from `at` up to and with its closing brace,
/// after the fields `done`: each a name, `:` and a type, with or without a
/// comma after it. A name that an earlier field has is an error.
pub open spec fn spec_fields(
    tokens: Seq<Positioned>,
    at: int,
    done: Seq<(Seq<char>, TypeModel)>,
) -> Result<(Seq<(Seq<char>, TypeModel)>, int), ParseErrorModel>
    decreases tokens.len() - at,
{
    let found = token_at(tokens, at);
    match found.token {
        TokenModel::ControlCharacter(ControlCharacter::RBrace) => Ok((done, at + 1)),
        TokenModel::Identifier(name) => if has_name(done, name) || at < 0 {
            Err(taken(found))
        } else {
            match spec_expect(tokens, at + 1, symbol(ControlCharacter::TypeClarify)) {
                Err(error) => Err(error),
                Ok(at1) => match spec_type(tokens, at1) {
                    Err(error) => Err(error),
                    Ok((ty, at2)) => {
                        let at3 = if kind_of(tokens, at2) == symbol(ControlCharacter::Comma) {
                            at2 + 1
                        } else {
                            at2
                        };
                        spec_fields(tokens, at3, done.push((name, ty)))
                    },
                },
            }
        },
        _ => Err(
            unexpected(found, seq![symbol(ControlCharacter::RBrace), TokenType::Identifier]),
        ),
    }
}

/// Reads the struct whose `struct` stands at `at`: `struct`, a name, `{`,
/// fields and `}`.
pub open spec fn spec_struct(tokens: Seq<Positioned>, at: int) -> Result<
    (DeclarationModel, int),
    ParseErrorModel,
> {
    match spec_name(tokens, at + 1) {
        Err(error) => Err(error),
        Ok((name, at1)) => match spec_expect(tokens, at1, symbol(ControlCharacter::LBrace)) {
            Err(error) => Err(error),
            Ok(at2) => match spec_fields(tokens, at2, Seq::empty()) {
                Err(error) => Err(error),
                Ok((fields, next)) => Ok((DeclarationModel::StructDef(name, fields), next)),
            },
        },
    }
}

/// Reads the parameters of a function from `at` up to and with the closing
/// parenthesis, after the parameters `done`: each a name, `:` and a type,
/// with commas between them.
pub open spec fn spec_parameters(
    tokens: Seq<Positioned>,
    at: int,
    done: Seq<(Seq<char>, TypeModel)>,
) -> Result<(Seq<(Seq<char>, TypeModel)>, int), ParseErrorModel>
    decreases tokens.len() - at,
{
    let found = token_at(tokens, at);
    match found.token {
        TokenModel::Identifier(name) => match spec_expect(
            tokens,
            at + 1,
            symbol(ControlCharacter::TypeClarify),
        ) {
            Err(error) => Err(error),
            Ok(at1) => match spec_type(tokens, at1) {
                Err(error) => Err(error),
                Ok((ty, at2)) => if kind_of(tokens, at2) == symbol(ControlCharacter::Comma) && 0
                    <= at {
                    spec_parameters(tokens, at2 + 1, done.push((name, ty)))
                } else if kind_of(tokens, at2) == symbol(ControlCharacter::RightParen) {
                    Ok((done.push((name, ty)), at2 + 1))
                } else {
                    Err(
                        unexpected(
                            token_at(tokens, at2),
                            seq![
                                symbol(ControlCharacter::Comma),
                                symbol(ControlCharacter::RightParen),
                            ],
                        ),
                    )
                },
            },
        },
        TokenModel::ControlCharacter(ControlCharacter::RightParen) => if done.len() == 0 {
            Ok((done, at + 1))
        } else {
            Err(unexpected(found, seq![TokenType::Identifier]))
        },
        _ => if done.len() == 0 {
            Err(
                unexpected(
                    found,
                    seq![symbol(ControlCharacter::RightParen), TokenType::Identifier],
                ),
            )
        } else {
            Err(unexpected(found, seq![TokenType::Identifier]))
        },
    }
}

/// Reads the arguments of an attribute from `at` up to and with the closing
/// parenthesis, after the arguments `done`: each an identifier or a string
/// literal, with commas between them.
pub open spec fn spec_arguments(tokens: Seq<Positioned>, at: int, done: Seq<Seq<char>>) -> Result<
    (Seq<Seq<char>>, int),
    ParseErrorModel,
>
    decreases tokens.len() - at,
{
    let found = token_at(tokens, at);
    match found.token {
        TokenModel::Identifier(text) | TokenModel::String(text) => if kind_of(tokens, at + 1)
            == symbol(ControlCharacter::Comma) && 0 <= at {
            spec_arguments(tokens, at + 2, done.push(text))
        } else if kind_of(tokens, at + 1) == symbol(ControlCharacter::RightParen) {
            Ok((done.push(text), at + 2))
        } else {
            Err(
                unexpected(
                    token_at(tokens, at + 1),
                    seq![symbol(ControlCharacter::Comma), symbol(ControlCharacter::RightParen)],
                ),
            )
        },
        TokenModel::ControlCharacter(ControlCharacter::RightParen) => if done.len() == 0 {
            Ok((done, at + 1))
        } else {
            Err(unexpected(found, seq![TokenType::Identifier, TokenType::String]))
        },
        _ => if done.len() == 0 {
            Err(
                unexpected(
                    found,
                    seq![
                        symbol(ControlCharacter::RightParen),
                        TokenType::Identifier,
                        TokenType::String,
                    ],
                ),
            )
        } else {
            Err(unexpected(found, seq![TokenType::Identifier, TokenType::String]))
        },
    }
}

/// The arguments of an attribute that are read end after at least one token
/// and within the token sequence.
pub proof fn lemma_arguments_advance(tokens: Seq<Positioned>, at: int, done: Seq<Seq<char>>)
    requires
        0 <= at,
    ensures
        spec_arguments(tokens, at, done) matches Ok((_, next)) ==> at < next <= tokens.len(),
    decreases tokens.len() - at,
{
    match token_at(tokens, at).token {
        TokenModel::Identifier(text) | TokenModel::String(text) => {
            if kind_of(tokens, at + 1) == symbol(ControlCharacter::Comma) {
                lemma_arguments_advance(tokens, at + 2, done.push(text));
            }
        },
        _ => {},
    }
}

/// Reads the attributes of a function from `at`, after the attributes
/// `done`: each `#`, a name and, where they are written, its arguments in
/// parentheses. The attributes end before the first token that is no `#`.
/// A name that an earlier attribute has is an error.
pub open spec fn spec_attributes(
    tokens: Seq<Positioned>,
    at: int,
    done: Seq<(Seq<char>, Seq<Seq<char>>)>,
) -> Result<(Seq<(Seq<char>, Seq<Seq<char>>)>, int), ParseErrorModel>
    decreases tokens.len() - at,
{
    if kind_of(tokens, at) == symbol(ControlCharacter::Attribute) && 0 <= at {
        match spec_name(tokens, at + 1) {
            Err(error) => Err(error),
            Ok((name, at1)) => if has_name(done, name) {
                Err(taken(token_at(tokens, at + 1)))
            } else if kind_of(tokens, at1) == symbol(ControlCharacter::LeftParen) {
                match spec_arguments(tokens, at1 + 1, Seq::empty()) {
                    Err(error) => Err(error),
                    Ok((arguments, at2)) => {
                        proof {
                            lemma_arguments_advance(tokens, at1 + 1, Seq::empty());
                        }
                        spec_attributes(tokens, at2, done.push((name, arguments)))
                    },
                }
            } else {
                spec_attributes(tokens, at1, done.push((name, Seq::empty())))
            },
        }
    } else {
        Ok((done, at))
    }
}

/// Reads what follows the parameters of a function at `at`: `->` and the
/// type that the function returns; where no `->` stands there, the function
/// returns nothing and no token is taken.
pub open spec fn spec_return_type(tokens: Seq<Positioned>, at: int) -> Result<
    (TypeModel, int),
    ParseErrorModel,
> {
    if kind_of(tokens, at) == symbol(ControlCharacter::FunctionReturn) {
        spec_type(tokens, at + 1)
    } else {
        Ok((TypeModel::Nil, at))
    }
}

/// Reads the function that starts at `at`: its attributes, `static` where
/// it is written, `fn`, a name, the parameters in parentheses, the type it
/// returns where one is written, and its block.
pub open spec fn spec_function(tokens: Seq<Positioned>, at: int) -> Result<
    (DeclarationModel, int),
    ParseErrorModel,
> {
    match spec_attributes(tokens, at, Seq::empty()) {
        Err(error) => Err(error),
        Ok((attributes, at0)) => {
            let is_static = kind_of(tokens, at0) == word(Keyword::Static);
            let at1 = if is_static {
                at0 + 1
            } else {
                at0
            };
            match spec_expect(tokens, at1, word(Keyword::Function)) {
                Err(error) => Err(error),
                Ok(at2) => match spec_name(tokens, at2) {
                    Err(error) => Err(error),
                    Ok((name, at3)) => match spec_expect(
                        tokens,
                        at3,
                        symbol(ControlCharacter::LeftParen),
                    ) {
                        Err(error) => Err(error),
                        Ok(at4) => match spec_parameters(tokens, at4, Seq::empty()) {
                            Err(error) => Err(error),
                            Ok((parameters, at5)) => match spec_return_type(tokens, at5) {
                                Err(error) => Err(error),
                                Ok((return_type, at6)) => match spec_block(tokens, at6) {
                                    Err(error) => Err(error),
                                    Ok((code_block, next)) => Ok(
                                        (
                                            DeclarationModel::FunctionDec {
                                                is_static,
                                                attributes,
                                                name,
                                                parameters,
                                                return_type,
                                                code_block,
                                            },
                                            next,
                                        ),
                                    ),
                                },
                            },
                        },
                    },
                },
            }
        },
    }
}

/// The reserved words that a declaration is recognized by, in the order in
/// which the declarations are tried.
pub open spec fn declaration_starts() -> Seq<TokenType> {
    seq![
        word(Keyword::Const),
        word(Keyword::UseFile),
        word(Keyword::Function),
        word(Keyword::Struct),
    ]
}

/// Reads the declaration at `at`: a constant, an import, a function or a
/// struct, whichever the token at `at` opens. A function is opened by `fn`,
/// and also by `static` and by the `#` of an attribute. A token that opens
/// none is reported with the four reserved words that were expected.
pub open spec fn spec_declaration(tokens: Seq<Positioned>, at: int) -> Result<
    (DeclarationModel, int),
    ParseErrorModel,
> {
    let found = token_at(tokens, at);
    match found.token {
        TokenModel::Keyword(Keyword::Const) => spec_const(tokens, at),
        TokenModel::Keyword(Keyword::UseFile) => spec_import(tokens, at),
        TokenModel::Keyword(Keyword::Function)
        | TokenModel::Keyword(Keyword::Static)
        | TokenModel::ControlCharacter(ControlCharacter::Attribute) => spec_function(tokens, at),
        TokenModel::Keyword(Keyword::Struct) => spec_struct(tokens, at),
        _ => Err(unexpected(found, declaration_starts())),
    }
}

/// The fields of a struct that are read end after at least one token and
/// within the token sequence; so do the parameters of a function.
pub proof fn lemma_fields_advance(
    tokens: Seq<Positioned>,
    at: int,
    done: Seq<(Seq<char>, TypeModel)>,
)
    requires
        0 <= at,
    ensures
        spec_fields(tokens, at, done) matches Ok((_, next)) ==> at < next <= tokens.len(),
        spec_parameters(tokens, at, done) matches Ok((_, next)) ==> at < next <= tokens.len(),
    decreases tokens.len() - at,
{
    if let TokenModel::Identifier(name) = token_at(tokens, at).token {
        if let Ok((ty, at2)) = spec_type(tokens, at + 2) {
            if at + 3 <= tokens.len() {
                lemma_fields_advance(tokens, at + 3, done.push((name, ty)));
            }
            if at + 4 <= tokens.len() {
                lemma_fields_advance(tokens, at + 4, done.push((name, ty)));
            }
        }
    }
}

/// The attributes of a function that are read never end before they start,
/// and end within the token sequence.
pub proof fn lemma_attributes_advance(
    tokens: Seq<Positioned>,
    at: int,
    done: Seq<(Seq<char>, Seq<Seq<char>>)>,
)
    requires
        0 <= at <= tokens.len(),
    ensures
        spec_attributes(tokens, at, done) matches Ok((_, next)) ==> at <= next <= tokens.len(),
    decreases tokens.len() - at,
{
    if kind_of(tokens, at) == symbol(ControlCharacter::Attribute) {
        if let Ok((name, at1)) = spec_name(tokens, at + 1) {
            if kind_of(tokens, at1) == symbol(ControlCharacter::LeftParen) {
                lemma_arguments_advance(tokens, at1 + 1, Seq::empty());
                if let Ok((arguments, at2)) = spec_arguments(tokens, at1 + 1, Seq::empty()) {
                    lemma_attributes_advance(tokens, at2, done.push((name, arguments)));
                }
            } else {
                lemma_attributes_advance(tokens, at1, done.push((name, Seq::empty())));
            }
        }
    }
}

/// A function that is read takes at least one token and ends within the
/// token sequence.
pub proof fn lemma_function_advances(tokens: Seq<Positioned>, at: int)
    requires
        0 <= at <= tokens.len(),
    ensures
        spec_function(tokens, at) matches Ok((_, next)) ==> at < next <= tokens.len(),
{
    lemma_attributes_advance(tokens, at, Seq::empty());
    if let Ok((_, at0)) = spec_attributes(tokens, at, Seq::empty()) {
        let at1 = if kind_of(tokens, at0) == word(Keyword::Static) {
            at0 + 1
        } else {
            at0
        };
        lemma_fields_advance(tokens, at1 + 3, Seq::empty());
        if let Ok((_, at5)) = spec_parameters(tokens, at1 + 3, Seq::empty()) {
            if let Ok((_, at6)) = spec_return_type(tokens, at5) {
                lemma_block_advances(tokens, at6);
            }
        }
    }
}

/// A declaration that is read takes at least one token and ends within the
/// token sequence.
pub proof fn lemma_declaration_advances(tokens: Seq<Positioned>, at: int)
    requires
        0 <= at <= tokens.len(),
    ensures
        spec_declaration(tokens, at) matches Ok((_, next)) ==> at < next <= tokens.len(),
{
    lemma_function_advances(tokens, at);
    lemma_binding_advances(tokens, at + 1, true);
    lemma_fields_advance(tokens, at + 3, Seq::empty());
}

/// Reads the declarations of a program from `at` up to the end of input,
/// after the declarations `done`, and gives them with the index at which the
/// end of input stands. The first declaration that cannot be read ends the
/// reading with its error.
pub open spec fn spec_program(
    tokens: Seq<Positioned>,
    at: int,
    done: Seq<DeclarationModel>,
) -> Result<(Seq<DeclarationModel>, int), ParseErrorModel>
    decreases tokens.len() - at,
{
    if token_at(tokens, at).token == TokenModel::EOI {
        Ok((done, at))
    } else {
        match spec_declaration(tokens, at) {
            Err(error) => Err(error),
            Ok((declaration, next)) => {
                proof {
                    lemma_declaration_advances(tokens, at);
                }
                spec_program(tokens, next, done.push(declaration))
            },
        }
    }
}

/// Whether a declaration keeps what its kind requires: a constant has a
/// type annotation, no two fields of a struct have the same name, and no two
/// attributes of a function have the same name.
pub open spec fn valid_declaration(declaration: DeclarationModel) -> bool {
    match declaration {
        DeclarationModel::ConstDec(binding) => binding.var_type is Some,
        DeclarationModel::StructDef(_, fields) => distinct_names(fields),
        DeclarationModel::FunctionDec { attributes, .. } => distinct_names(attributes),
        DeclarationModel::UseFile(_) => true,
    }
}

/// Whether every declaration of a list keeps what its kind requires.
pub open spec fn valid_declarations(declarations: Seq<DeclarationModel>) -> bool {
    forall|i: int| 0 <= i < declarations.len() ==> valid_declaration(#[trigger] declarations[i])
}

/// The fields of a struct that are read have distinct names.
pub proof fn lemma_fields_distinct(
    tokens: Seq<Positioned>,
    at: int,
    done: Seq<(Seq<char>, TypeModel)>,
)
    requires
        distinct_names(done),
    ensures
        spec_fields(tokens, at, done) matches Ok((fields, _)) ==> distinct_names(fields),
    decreases tokens.len() - at,
{
    if let TokenModel::Identifier(name) = token_at(tokens, at).token {
        if !has_name(done, name) && 0 <= at {
            if let Ok(at1) = spec_expect(tokens, at + 1, symbol(ControlCharacter::TypeClarify)) {
                if let Ok((ty, at2)) = spec_type(tokens, at1) {
                    let at3 = if kind_of(tokens, at2) == symbol(ControlCharacter::Comma) {
                        at2 + 1
                    } else {
                        at2
                    };
                    lemma_push_distinct(done, name, ty);
                    lemma_fields_distinct(tokens, at3, done.push((name, ty)));
                }
            }
        }
    }
}

/// A list of distinct names with one more entry, whose name no entry has,
/// is a list of distinct names.
pub proof fn lemma_push_distinct<T>(list: Seq<(Seq<char>, T)>, name: Seq<char>, item: T)
    requires
        distinct_names(list),
        !has_name(list, name),
    ensures
        distinct_names(list.push((name, item))),
{
    let longer = list.push((name, item));
    assert forall|i: int, j: int| 0 <= i < j < longer.len() implies (#[trigger] longer[i]).0 != (
    #[trigger] longer[j]).0 by {
        if j < list.len() {
            assert(longer[i] == list[i]);
            assert(longer[j] == list[j]);
        } else {
            assert(longer[i] == list[i]);
        }
    }
}

/// The attributes of a function that are read have distinct names.
pub proof fn lemma_attributes_distinct(
    tokens: Seq<Positioned>,
    at: int,
    done: Seq<(Seq<char>, Seq<Seq<char>>)>,
)
    requires
        0 <= at <= tokens.len(),
        distinct_names(done),
    ensures
        spec_attributes(tokens, at, done) matches Ok((attributes, _)) ==> distinct_names(
            attributes,
        ),
    decreases tokens.len() - at,
{
    if kind_of(tokens, at) == symbol(ControlCharacter::Attribute) {
        if let Ok((name, at1)) = spec_name(tokens, at + 1) {
            if !has_name(done, name) {
                if kind_of(tokens, at1) == symbol(ControlCharacter::LeftParen) {
                    lemma_arguments_advance(tokens, at1 + 1, Seq::empty());
                    if let Ok((arguments, at2)) = spec_arguments(tokens, at1 + 1, Seq::empty()) {
                        lemma_push_distinct(done, name, arguments);
                        lemma_attributes_distinct(tokens, at2, done.push((name, arguments)));
                    }
                } else {
                    lemma_push_distinct(done, name, Seq::<Seq<char>>::empty());
                    lemma_attributes_distinct(tokens, at1, done.push((name, Seq::empty())));
                }
            }
        }
    }
}

/// A declaration that is read keeps what its kind requires.
pub proof fn lemma_declaration_valid(tokens: Seq<Positioned>, at: int)
    requires
        0 <= at <= tokens.len(),
    ensures
        spec_declaration(tokens, at) matches Ok((declaration, _)) ==> valid_declaration(
            declaration,
        ),
{
    lemma_fields_distinct(tokens, at + 3, Seq::empty());
    lemma_attributes_distinct(tokens, at, Seq::empty());
}

/// Every declaration of a program that is read keeps what its kind
/// requires.
pub proof fn lemma_program_valid(tokens: Seq<Positioned>, at: int, done: Seq<DeclarationModel>)
    requires
        valid_declarations(done),
    ensures
        spec_program(tokens, at, done) matches Ok((declarations, _)) ==> valid_declarations(
            declarations,
        ),
    decreases tokens.len() - at,
{
    if token_at(tokens, at).token != TokenModel::EOI {
        if let Ok((declaration, next)) = spec_declaration(tokens, at) {
            lemma_declaration_advances(tokens, at);
            lemma_declaration_valid(tokens, at);
            let more = done.push(declaration);
            assert forall|i: int| 0 <= i < more.len() implies valid_declaration(
                #[trigger] more[i],
            ) by {
                if i < done.len() {
                    assert(more[i] == done[i]);
                }
            }
            lemma_program_valid(tokens, next, more);
        }
    }
}

} // verus!
