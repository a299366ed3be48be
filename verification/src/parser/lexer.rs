use vstd::prelude::*;
use vstd::slice::slice_subrange;

use super::scan::{lemma_span, scan, span, CharClass};
use super::token::{
    lemma_parse_bounds, spec_parse, spec_parse_operand, Keyword, Positioned, Token, TokenHolder,
    TokenModel,
};

verus! {

/// Why a source text has no tokens: the position of the first character at
/// which no token starts, and that character.
#[derive(Debug, Clone, Copy, PartialEq, Eq, Structural)]
pub struct LexError {
    pub at: usize,
    pub found: char,
}

/// The characters of `text`, in order.
pub fn characters(text: &str) -> (chars: Vec<char>)
    ensures
        chars@ == text@,
{
    let mut chars: Vec<char> = Vec::new();
    for c in it: text.chars()
        invariant
            chars@ == it.seq().take(it.index() as int),
            it.seq() == text@,
    {
        chars.push(c);
    }
    chars
}

/// Whether the token after `token` is the operand of an import: it is after
/// the reserved word `use` and nowhere else.
pub open spec fn opens_import(token: TokenModel) -> bool {
    token == TokenModel::Keyword(Keyword::UseFile)
}

/// The next token of `text` at or after position `pos`.
///
/// White space is passed over; the token starts at the first character that
/// is none, and its length counts no white space. Where `operand` is set the
/// token is looked for as the operand of an import. Where no token starts
/// there, the error names the position and the character.
pub open spec fn spec_next_token(text: Seq<char>, pos: int, operand: bool) -> Result<
    Positioned,
    LexError,
> {
    let start = span(text, pos, CharClass::Whitespace);
    let rest = text.subrange(start, text.len() as int);
    let found = if operand {
        spec_parse_operand(rest)
    } else {
        spec_parse(rest)
    };
    match found {
        Some((token, length)) => Ok(Positioned { start: start as nat, length, token }),
        None => Err(LexError { at: start as usize, found: text[start] }),
    }
}

/// The tokens of `text` from position `pos` on, the end of input last; or
/// the first error.
pub open spec fn spec_tokenize_from(text: Seq<char>, pos: int, operand: bool) -> Result<
    Seq<Positioned>,
    LexError,
>
    decreases text.len() - pos,
    when 0 <= pos <= text.len()
{
    match spec_next_token(text, pos, operand) {
        Err(error) => Err(error),
        Ok(holder) => if holder.token == TokenModel::EOI {
            Ok(seq![holder])
        } else {
            proof {
                lemma_next_token(text, pos, operand);
            }
            match spec_tokenize_from(
                text,
                (holder.start + holder.length) as int,
                opens_import(holder.token),
            ) {
                Ok(rest) => Ok(seq![holder] + rest),
                Err(error) => Err(error),
            }
        },
    }
}

/// The tokens of a source text, the end of input last; or the first error.
pub open spec fn spec_tokenize(text: Seq<char>) -> Result<Seq<Positioned>, LexError> {
    spec_tokenize_from(text, 0, false)
}

/// The next token starts at or after the position it is looked for at and
/// ends within the text. It has length 0 exactly where it is the end of
/// input, which starts at the end of the text. An error names a position
/// within the text and the character there.
pub proof fn lemma_next_token(text: Seq<char>, pos: int, operand: bool)
    requires
        0 <= pos <= text.len(),
    ensures
        match spec_next_token(text, pos, operand) {
            Ok(holder) => {
                &&& pos <= holder.start
                &&& holder.start + holder.length <= text.len()
                &&& (holder.token == TokenModel::EOI <==> holder.length == 0)
                &&& (holder.token == TokenModel::EOI <==> holder.start == text.len())
            },
            Err(error) => text.len() <= usize::MAX ==> pos <= error.at < text.len() && error.found
                == text[error.at as int],
        },
{
    lemma_span(text, pos, CharClass::Whitespace);
    let start = span(text, pos, CharClass::Whitespace);
    lemma_parse_bounds(text.subrange(start, text.len() as int));
}

/// A lexer: a source text and a cursor into it.
pub struct Lexer {
    text: Vec<char>,
    pos: usize,
    operand: bool,
}

impl Lexer {
    #[verifier::type_invariant]
    spec fn within(&self) -> bool {
        self.pos <= self.text@.len()
    }

    /// The source text.
    pub closed spec fn text(&self) -> Seq<char> {
        self.text@
    }

    /// The cursor: the position at which the next token is looked for.
    pub closed spec fn pos(&self) -> int {
        self.pos as int
    }

    /// Whether the next token is the operand of an import.
    pub closed spec fn operand(&self) -> bool {
        self.operand
    }

    /// A lexer at the start of `text`.
    pub fn new(text: String) -> (lexer: Self)
        ensures
            lexer.text() == text@,
            lexer.pos() == 0,
            !lexer.operand(),
    {
        Self { text: characters(text.as_str()), pos: 0, operand: false }
    }

    /// The position at which the next token is looked for.
    pub fn position(&self) -> (pos: usize)
        ensures
            pos == self.pos(),
            pos <= self.text().len(),
    {
        proof {
            use_type_invariant(self);
        }
        self.pos
    }

    /// Moves the cursor past the white space it stands at.
    fn skip_whitespace(&mut self)
        ensures
            final(self).text() == old(self).text(),
            final(self).operand() == old(self).operand(),
            final(self).pos() == span(old(self).text(), old(self).pos(), CharClass::Whitespace),
    {
        proof {
            use_type_invariant(&*self);
        }
        let end = scan(self.text.as_slice(), self.pos, CharClass::Whitespace);
        self.pos = end;
    }

    /// Reads the next token and moves the cursor past it.
    ///
    /// At the end of the text the token is the end of input and the cursor
    /// stays; every other token moves the cursor forward. After an error the
    /// cursor stands at the character that the error names.
    pub fn next_token(&mut self) -> (outcome: Result<TokenHolder, LexError>)
        ensures
            lexed(outcome) == spec_next_token(old(self).text(), old(self).pos(), old(self).operand()),
            final(self).text() == old(self).text(),
            match outcome {
                Ok(holder) => {
                    &&& final(self).pos() == holder.start + holder.length
                    &&& final(self).operand() == opens_import(holder.token@)
                    &&& old(self).pos() <= holder.start
                    &&& holder.start + holder.length <= old(self).text().len()
                    &&& holder.token@ == TokenModel::EOI ==> holder.length == 0 && holder.start
                        == old(self).text().len()
                    &&& holder.token@ != TokenModel::EOI ==> final(self).pos() > old(self).pos()
                },
                Err(error) => {
                    &&& final(self).pos() == error.at
                    &&& final(self).operand() == old(self).operand()
                    &&& old(self).pos() <= error.at < old(self).text().len()
                    &&& error.found == old(self).text()[error.at as int]
                },
            },
    {
        proof {
            use_type_invariant(&*self);
            lemma_next_token(self.text(), self.pos(), self.operand());
        }
        self.skip_whitespace();
        proof {
            use_type_invariant(&*self);
        }
        let start = self.pos;
        let rest = slice_subrange(self.text.as_slice(), start, self.text.len());
        let found = if self.operand {
            Token::parse_operand(rest)
        } else {
            Token::parse(rest)
        };
        match found {
            Some((token, length)) => {
                let opens = match &token {
                    Token::Keyword(Keyword::UseFile) => true,
                    _ => false,
                };
                self.pos = start + length;
                self.operand = opens;
                Ok(TokenHolder::new(token, start, length))
            },
            None => Err(LexError { at: start, found: self.text[start] }),
        }
    }
}

/// The outcome of reading one token, as a mathematical value.
pub open spec fn lexed(outcome: Result<TokenHolder, LexError>) -> Result<Positioned, LexError> {
    match outcome {
        Ok(holder) => Ok(holder@),
        Err(error) => Err(error),
    }
}

/// The models of a sequence of tokens.
pub open spec fn models(tokens: Seq<TokenHolder>) -> Seq<Positioned> {
    tokens.map_values(|holder: TokenHolder| holder@)
}

/// The outcome of reading all tokens, as a mathematical value.
pub open spec fn tokenized(outcome: Result<Vec<TokenHolder>, LexError>) -> Result<
    Seq<Positioned>,
    LexError,
> {
    match outcome {
        Ok(tokens) => Ok(models(tokens@)),
        Err(error) => Err(error),
    }
}

/// `tokens` is the token sequence of a text of `length` characters, as far
/// as its shape goes: it ends in exactly one end of input, which has length
/// 0 and stands at the end of the text; every token before it is at least
/// one character long and lies within the text; and the tokens follow each
/// other from position `from` on without overlap.
pub open spec fn well_formed(tokens: Seq<Positioned>, from: int, length: int) -> bool {
    &&& tokens.len() >= 1
    &&& tokens.last() == (Positioned { start: length as nat, length: 0, token: TokenModel::EOI })
    &&& forall|i: int|
        0 <= i < tokens.len() - 1 ==> (#[trigger] tokens[i]).token != TokenModel::EOI && tokens[i].length
            > 0
    &&& forall|i: int|
        0 <= i < tokens.len() ==> from <= (#[trigger] tokens[i]).start && tokens[i].start
            + tokens[i].length <= length
    &&& forall|i: int|
        0 <= i < tokens.len() - 1 ==> (#[trigger] tokens[i]).start + tokens[i].length <= tokens[i
            + 1].start
}

/// Reading the tokens of a text from any position either gives a sequence
/// of the shape that [`well_formed`] describes, or an error that names a
/// position within the text and the character that stands there.
pub proof fn lemma_tokenize_from_total(text: Seq<char>, pos: int, operand: bool)
    requires
        0 <= pos <= text.len() <= usize::MAX,
    ensures
        match spec_tokenize_from(text, pos, operand) {
            Ok(tokens) => well_formed(tokens, pos, text.len() as int),
            Err(error) => pos <= error.at < text.len() && error.found == text[error.at as int],
        },
    decreases text.len() - pos,
{
    lemma_next_token(text, pos, operand);
    if let Ok(holder) = spec_next_token(text, pos, operand) {
        if holder.token != TokenModel::EOI {
            let next = (holder.start + holder.length) as int;
            lemma_tokenize_from_total(text, next, opens_import(holder.token));
            if let Ok(rest) = spec_tokenize_from(text, next, opens_import(holder.token)) {
                let tokens = seq![holder] + rest;
                assert(tokens.last() == rest.last());
                assert forall|i: int| 0 <= i < tokens.len() implies pos <= (#[trigger] tokens[i]).start
                    && tokens[i].start + tokens[i].length <= text.len() by {
                    if i > 0 {
                        assert(tokens[i] == rest[i - 1]);
                    }
                }
                assert forall|i: int| 0 <= i < tokens.len() - 1 implies (#[trigger] tokens[i]).token
                    != TokenModel::EOI && tokens[i].length > 0 && tokens[i].start + tokens[i].length
                    <= tokens[i + 1].start by {
                    assert(tokens[i + 1] == rest[i]);
                    if i > 0 {
                        assert(tokens[i] == rest[i - 1]);
                    }
                }
            }
        }
    }
}

/// Tokenizing is total: every source text either has a token sequence that
/// ends in exactly one end of input of length 0, with every other token at
/// least one character long, or it has an error at a character of the text.
pub proof fn lemma_tokenize_total(text: Seq<char>)
    requires
        text.len() <= usize::MAX,
    ensures
        match spec_tokenize(text) {
            Ok(tokens) => well_formed(tokens, 0, text.len() as int),
            Err(error) => error.at < text.len() && error.found == text[error.at as int],
        },
{
    lemma_tokenize_from_total(text, 0, false);
}

/// A token sequence with one more sequence in front of it.
pub open spec fn after(front: Seq<Positioned>, rest: Result<Seq<Positioned>, LexError>) -> Result<
    Seq<Positioned>,
    LexError,
> {
    match rest {
        Ok(tokens) => Ok(front + tokens),
        Err(error) => Err(error),
    }
}

/// Reads all tokens of `source`.
///
/// Returns them in order, the end of input last, or the error at the first
/// character at which no token starts.
pub fn tokenize(source: &str) -> (outcome: Result<Vec<TokenHolder>, LexError>)
    ensures
        tokenized(outcome) == spec_tokenize(source@),
        match outcome {
            Ok(tokens) => well_formed(models(tokens@), 0, source@.len() as int),
            Err(error) => error.at < source@.len() && error.found == source@[error.at as int],
        },
{
    let mut lexer = Lexer { text: characters(source), pos: 0, operand: false };
    let mut tokens: Vec<TokenHolder> = Vec::new();
    let ghost text = source@;
    proof {
        assert(text.len() == lexer.text.len());
        assert(models(tokens@) =~= Seq::<Positioned>::empty());
        match spec_tokenize(text) {
            Ok(all) => {
                assert(Seq::<Positioned>::empty() + all =~= all);
            },
            Err(_) => {},
        }
    }
    loop
        invariant
            text == source@,
            lexer.text() == text,
            0 <= lexer.pos() <= text.len() <= usize::MAX,
            spec_tokenize(text) == after(
                models(tokens@),
                spec_tokenize_from(text, lexer.pos(), lexer.operand()),
            ),
        decreases text.len() - lexer.pos(),
    {
        let ghost front = models(tokens@);
        proof {
            lemma_tokenize_total(text);
        }
        match lexer.next_token() {
            Err(error) => {
                return Err(error);
            },
            Ok(holder) => {
                let last = match &holder.token {
                    Token::EOI => true,
                    _ => false,
                };
                let ghost model = holder@;
                tokens.push(holder);
                proof {
                    assert(models(tokens@) =~= front + seq![model]);
                    if !last {
                        let next = spec_tokenize_from(text, lexer.pos(), lexer.operand());
                        match next {
                            Ok(rest) => {
                                assert(front + (seq![model] + rest) =~= (front + seq![model])
                                    + rest);
                            },
                            Err(_) => {},
                        }
                    }
                }
                if last {
                    return Ok(tokens);
                }
            },
        }
    }
}

} // verus!
