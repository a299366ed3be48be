use vstd::prelude::*;

use self::ast::{DeclarationModel, Program};
use self::grammar::{kind_of, lemma_program_valid, spec_program, token_at, valid_declarations};
use self::lexer::{models, spec_tokenize, tokenize, LexError};
use self::token::{unexpected, Positioned, Token, TokenHolder, TokenModel, TokenType};

pub mod ast;
pub mod cursor;
pub mod grammar;
pub mod laws;
pub mod lexer;
pub mod render;
pub mod scan;
pub mod token;
pub mod types;

verus! {

/// Which rule of the language a parse error reports.
#[derive(Debug, Clone, Copy, PartialEq, Eq, Structural)]
pub enum Rule {
    /// The token found is none of those that the grammar accepts here.
    Grammar,
    /// A constant was declared without a type annotation.
    ConstTypeAnnotation,
    /// An integer literal does not fit the width of the type it is annotated
    /// with.
    LiteralRange,
    /// A name is given twice where every name can be given once: among the
    /// fields of one struct, or among the attributes of one function.
    DuplicateName,
}

/// Why a token sequence is no program: the token that was found, and the
/// kinds of token that would have been accepted in its place, in the order
/// in which the grammar tries them.
#[derive(Debug)]
pub struct ParseError {
    pub at: TokenHolder,
    pub expected: Vec<TokenType>,
    pub rule: Rule,
}

/// The mathematical model of a [`ParseError`].
pub ghost struct ParseErrorModel {
    pub at: Positioned,
    pub expected: Seq<TokenType>,
    pub rule: Rule,
}

impl View for ParseError {
    type V = ParseErrorModel;

    open spec fn view(&self) -> ParseErrorModel {
        ParseErrorModel { at: self.at@, expected: self.expected@, rule: self.rule }
    }
}

/// A node of the syntax tree that can be read from a token sequence.
pub trait ParserItem: Sized + View {
    /// What reading a node at index `start` of `tokens` gives: the model of
    /// the node and the index after it, or the error.
    spec fn spec_parse(start: int, tokens: Seq<Positioned>) -> Result<
        (Self::V, int),
        ParseErrorModel,
    >;

    /// Reads the node that starts at index `start` of `tokens`, and returns it
    /// with the number of tokens that it takes.
    fn parse(start: usize, tokens: &[TokenHolder]) -> (outcome: Result<(Self, usize), ParseError>)
        ensures
            consumed(outcome, start) == Self::spec_parse(start as int, models(tokens@)),
    ;
}

/// The outcome of reading a node at index `start`, as a mathematical value:
/// the model of the node and the index after it, or the model of the error.
pub open spec fn consumed<T: View>(outcome: Result<(T, usize), ParseError>, start: usize) -> Result<
    (T::V, int),
    ParseErrorModel,
> {
    match outcome {
        Ok((node, count)) => Ok((node@, start + count)),
        Err(error) => Err(error@),
    }
}

/// Why a source text is no program: it has no tokens, or its tokens are no
/// program.
#[derive(Debug)]
pub enum SourceError {
    Lex(LexError),
    Parse(ParseError),
}

/// The mathematical model of a [`SourceError`].
pub ghost enum SourceErrorModel {
    Lex(LexError),
    Parse(ParseErrorModel),
}

impl View for SourceError {
    type V = SourceErrorModel;

    open spec fn view(&self) -> SourceErrorModel {
        match self {
            SourceError::Lex(error) => SourceErrorModel::Lex(*error),
            SourceError::Parse(error) => SourceErrorModel::Parse(error@),
        }
    }
}

/// The program that a source text is: the declarations that its tokens
/// spell. A text without tokens has the lexer's error, unchanged; a token
/// sequence that is no program has the first parse error.
pub open spec fn spec_parse_source(text: Seq<char>) -> Result<
    Seq<DeclarationModel>,
    SourceErrorModel,
> {
    match spec_tokenize(text) {
        Err(error) => Err(SourceErrorModel::Lex(error)),
        Ok(tokens) => match spec_program(tokens, 0, Seq::empty()) {
            Err(error) => Err(SourceErrorModel::Parse(error)),
            Ok((declarations, _)) => Ok(declarations),
        },
    }
}

/// The outcome of parsing a source text, as a mathematical value.
pub open spec fn source_parsed(outcome: Result<Program, SourceError>) -> Result<
    Seq<DeclarationModel>,
    SourceErrorModel,
> {
    match outcome {
        Ok(program) => Ok(program@),
        Err(error) => Err(error@),
    }
}

/// Parses a source text: reads its tokens, and from them its declarations.
///
/// Every declaration of the program that is returned keeps what its kind
/// requires: a constant has a type annotation, and the fields of a struct
/// and the attributes of a function have distinct names.
pub fn parse(source: &str) -> (outcome: Result<Program, SourceError>)
    ensures
        source_parsed(outcome) == spec_parse_source(source@),
        outcome matches Ok(program) ==> valid_declarations(program@),
{
    let tokens = match tokenize(source) {
        Ok(tokens) => tokens,
        Err(error) => {
            return Err(SourceError::Lex(error));
        },
    };
    proof {
        lemma_program_valid(models(tokens@), 0, Seq::empty());
    }
    match Program::parse_at(0, tokens.as_slice()) {
        Ok((program, _)) => Ok(program),
        Err(error) => Err(SourceError::Parse(error)),
    }
}

/// A parser: the tokens of a source text and a cursor over them, which
/// stands at the current token.
pub struct Parser {
    text: String,
    tokens: Vec<TokenHolder>,
    pos: usize,
}

impl Parser {
    #[verifier::type_invariant]
    spec fn within(&self) -> bool {
        &&& self.pos < self.tokens@.len()
        &&& models(self.tokens@).last().token == TokenModel::EOI
        &&& forall|i: int|
            0 <= i < self.tokens@.len() - 1 ==> (#[trigger] models(self.tokens@)[i]).token
                != TokenModel::EOI
    }

    /// The source text.
    pub closed spec fn text(&self) -> Seq<char> {
        self.text@
    }

    /// The tokens of the source text.
    pub closed spec fn tokens(&self) -> Seq<Positioned> {
        models(self.tokens@)
    }

    /// The cursor: the index of the current token.
    pub closed spec fn pos(&self) -> int {
        self.pos as int
    }

    /// A parser over the tokens of `text`, at the first of them; or the
    /// error of the lexer where the text has no tokens.
    pub fn new(text: String) -> (outcome: Result<Self, LexError>)
        ensures
            match outcome {
                Ok(parser) => {
                    &&& spec_tokenize(text@) matches Ok(tokens) && tokens == parser.tokens()
                    &&& parser.text() == text@
                    &&& parser.pos() == 0
                },
                Err(error) => spec_tokenize(text@) matches Err(found) && found == error,
            },
    {
        let tokens = tokenize(text.as_str())?;
        Ok(Parser { text, tokens, pos: 0 })
    }

    /// Whether the current token is of the kind `kind`. The cursor stays.
    pub fn peek_is(&self, kind: TokenType) -> (yes: bool)
        ensures
            yes == (kind_of(self.tokens(), self.pos()) == kind),
    {
        proof {
            use_type_invariant(self);
        }
        self.tokens[self.pos].token.is(kind)
    }

    /// Takes the current token where it is of the kind `kind`, and moves the
    /// cursor to the next token; the end of input is taken without a move.
    /// Where the current token is of another kind, it is the error, and the
    /// cursor stays.
    pub fn eat(&mut self, kind: TokenType) -> (outcome: Result<TokenHolder, ParseError>)
        ensures
            final(self).tokens() == old(self).tokens(),
            final(self).text() == old(self).text(),
            match outcome {
                Ok(holder) => {
                    &&& holder@ == token_at(old(self).tokens(), old(self).pos())
                    &&& holder@.token.token_type() == kind
                    &&& final(self).pos() == if kind == TokenType::EOI {
                        old(self).pos()
                    } else {
                        old(self).pos() + 1
                    }
                },
                Err(error) => {
                    &&& error@ == unexpected(
                        token_at(old(self).tokens(), old(self).pos()),
                        seq![kind],
                    )
                    &&& kind_of(old(self).tokens(), old(self).pos()) != kind
                    &&& final(self).pos() == old(self).pos()
                },
            },
    {
        proof {
            use_type_invariant(&*self);
        }
        let count = self.tokens.len();
        let holder = self.tokens[self.pos].clone();
        if holder.token.is(kind) {
            let last = match &holder.token {
                Token::EOI => true,
                _ => false,
            };
            if !last {
                assert(models(self.tokens@)[self.pos as int].token != TokenModel::EOI);
                assert(models(self.tokens@).last() == models(self.tokens@)[count - 1]);
                self.pos = self.pos + 1;
            }
            Ok(holder)
        } else {
            let mut expected: Vec<TokenType> = Vec::new();
            expected.push(kind);
            assert(expected@ =~= seq![kind]);
            Err(ParseError { at: holder, expected, rule: Rule::Grammar })
        }
    }

    /// Reads the program that starts at the current token. The cursor stays.
    pub fn program(&self) -> (outcome: Result<Program, ParseError>)
        ensures
            match outcome {
                Ok(program) => spec_program(self.tokens(), self.pos(), Seq::empty()) matches Ok(
                    (declarations, _),
                ) && declarations == program@,
                Err(error) => spec_program(self.tokens(), self.pos(), Seq::empty()) matches Err(
                    found,
                ) && found == error@,
            },
    {
        match Program::parse_at(self.pos, self.tokens.as_slice()) {
            Ok((program, _)) => Ok(program),
            Err(error) => Err(error),
        }
    }
}

} // verus!
