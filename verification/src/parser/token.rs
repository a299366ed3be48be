use vstd::prelude::*;

use super::scan::{
    decimal_value, digit_value, identifier_start, is_digit, is_identifier_start,
    lemma_decimal_value_grows, lemma_span, scan, span, CharClass,
};
use super::types::EFSType;
use super::{ParseError, ParseErrorModel, Rule};

verus! {

/// A fixed, enumerated set of symbols, each with one canonical spelling.
///
/// The spelling is the single source of truth: the lexer matches input
/// against it and diagnostics print it. The laws say that the enumeration is
/// complete, that no spelling is empty, and that no two members share one.
pub trait LexerType: Sized + Copy {
    /// Every member of the set, in declaration order.
    spec fn spec_all() -> Seq<Self>;

    /// The canonical spelling of a member.
    spec fn spec_spelling(&self) -> Seq<char>;

    /// Every member occurs in the enumeration.
    proof fn lemma_all_complete(member: Self)
        ensures
            Self::spec_all().contains(member),
    ;

    /// No member is spelled with the empty text.
    proof fn lemma_spelling_nonempty(member: Self)
        ensures
            member.spec_spelling().len() > 0,
    ;

    /// Two members with the same spelling are the same member.
    proof fn lemma_spelling_injective(a: Self, b: Self)
        requires
            a.spec_spelling() == b.spec_spelling(),
        ensures
            a == b,
    ;

    /// Every member of the set, in declaration order.
    fn all() -> (members: Vec<Self>)
        ensures
            members@ == Self::spec_all(),
    ;

    /// The canonical spelling of a member.
    fn spelling(&self) -> (text: &'static str)
        ensures
            text@ == self.spec_spelling(),
    ;
}

/// The result of a symbol match as a mathematical value.
pub open spec fn symbol_found<T>(found: Option<(T, usize)>) -> Option<(T, nat)> {
    match found {
        Some((member, length)) => Some((member, length as nat)),
        None => None,
    }
}

/// `member` is spelled at the start of `text`, and no member of its set that
/// is spelled there has a longer spelling.
pub open spec fn is_longest_match<T: LexerType>(member: T, text: Seq<char>) -> bool {
    &&& member.spec_spelling().is_prefix_of(text)
    &&& forall|other: T| #[trigger]
        other.spec_spelling().is_prefix_of(text) ==> other.spec_spelling().len()
            <= member.spec_spelling().len()
}

/// The member of a symbol set that is recognized at the start of `text`,
/// with the length of its spelling: the longest one spelled there.
pub open spec fn spec_parse_symbol<T: LexerType>(text: Seq<char>) -> Option<(T, nat)> {
    if exists|member: T| is_longest_match(member, text) {
        let member = choose|member: T| is_longest_match(member, text);
        Some((member, member.spec_spelling().len()))
    } else {
        None
    }
}

/// At most one member of a set is the longest match at the start of a text.
pub proof fn lemma_longest_match_unique<T: LexerType>(a: T, b: T, text: Seq<char>)
    requires
        is_longest_match(a, text),
        is_longest_match(b, text),
    ensures
        a == b,
{
    let s = a.spec_spelling();
    let t = b.spec_spelling();
    assert(s.len() == t.len());
    assert(s =~= text.subrange(0, s.len() as int));
    assert(t =~= text.subrange(0, t.len() as int));
    T::lemma_spelling_injective(a, b);
}

proof fn lemma_longest_of_all<T: LexerType>(text: Seq<char>, best: Option<(T, usize)>)
    requires
        match best {
            Some((member, length)) => {
                &&& length == member.spec_spelling().len()
                &&& member.spec_spelling().is_prefix_of(text)
                &&& forall|j: int|
                    0 <= j < T::spec_all().len() && (#[trigger] T::spec_all()[j]).spec_spelling().is_prefix_of(
                        text,
                    ) ==> T::spec_all()[j].spec_spelling().len() <= length
            },
            None => forall|j: int|
                0 <= j < T::spec_all().len() ==> !(#[trigger] T::spec_all()[j]).spec_spelling().is_prefix_of(
                    text,
                ),
        },
    ensures
        symbol_found(best) == spec_parse_symbol::<T>(text),
{
    let all = T::spec_all();
    match best {
        Some((member, length)) => {
            assert forall|other: T| #[trigger]
                other.spec_spelling().is_prefix_of(text) implies other.spec_spelling().len()
                <= member.spec_spelling().len() by {
                T::lemma_all_complete(other);
                let j = choose|j: int| 0 <= j < all.len() && all[j] == other;
                assert(all[j].spec_spelling().is_prefix_of(text));
            }
            assert(is_longest_match(member, text));
            let chosen = choose|m: T| is_longest_match(m, text);
            lemma_longest_match_unique(member, chosen, text);
        },
        None => {
            assert forall|other: T| !is_longest_match(other, text) by {
                T::lemma_all_complete(other);
                let j = choose|j: int| 0 <= j < all.len() && all[j] == other;
                assert(!all[j].spec_spelling().is_prefix_of(text));
            }
        },
    }
}

/// Recognizes a member of the set at the start of `text`: the member
/// whose spelling stands there, and of several, the one with the longest
/// spelling. Returns it with the length of its spelling, or nothing where
/// no member's spelling stands at the start of `text`.
pub fn parse_symbol<T: LexerType>(text: &[char]) -> (found: Option<(T, usize)>)
    ensures
        symbol_found(found) == spec_parse_symbol::<T>(text@),
{
    let members = T::all();
    let mut best: Option<(T, usize)> = None;
    let mut at: usize = 0;
    while at < members.len()
        invariant
            at <= members.len(),
            members@ == T::spec_all(),
            match best {
                Some((member, length)) => {
                    &&& length == member.spec_spelling().len()
                    &&& member.spec_spelling().is_prefix_of(text@)
                    &&& forall|j: int|
                        0 <= j < at && (#[trigger] members@[j]).spec_spelling().is_prefix_of(
                            text@,
                        ) ==> members@[j].spec_spelling().len() <= length
                },
                None => forall|j: int|
                    0 <= j < at ==> !(#[trigger] members@[j]).spec_spelling().is_prefix_of(
                        text@,
                    ),
            },
        decreases members.len() - at,
    {
        let member = members[at];
        let word = member.spelling();
        if stands_at_start(text, word) {
            let length = word.unicode_len();
            let longer = match best {
                Some((_, so_far)) => length > so_far,
                None => true,
            };
            if longer {
                best = Some((member, length));
            }
        }
        at += 1;
    }
    proof {
        lemma_longest_of_all::<T>(text@, best);
    }
    best
}

/// Whether `word` stands at the start of `text`.
pub fn stands_at_start(text: &[char], word: &str) -> (stands: bool)
    ensures
        stands == word@.is_prefix_of(text@),
{
    let length = word.unicode_len();
    if length > text.len() {
        return false;
    }
    let mut at: usize = 0;
    while at < length
        invariant
            at <= length,
            length == word@.len(),
            length <= text@.len(),
            forall|j: int| 0 <= j < at ==> text@[j] == word@[j],
        decreases length - at,
    {
        if text[at] != word.get_char(at) {
            assert(text@.subrange(0, length as int)[at as int] != word@[at as int]);
            return false;
        }
        at += 1;
    }
    assert(word@ =~= text@.subrange(0, length as int));
    true
}

/// The names of the built-in types, as they are written in an annotation.
#[derive(Debug, Clone, Copy, PartialEq, Eq, Structural)]
pub enum TypeName {
    Number,
    Byte,
    Short,
    Int,
    Long,
    Float,
    Double,
    String,
    Bool,
    Dict,
    NBTByteArray,
    NBTIntArray,
    NBTLongArray,
    Nil,
}

impl TypeName {
    /// The static type that this name stands for.
    pub open spec fn spec_to_type(&self) -> EFSType {
        match self {
            TypeName::Number => EFSType::Number,
            TypeName::Byte => EFSType::Byte,
            TypeName::Short => EFSType::Short,
            TypeName::Int => EFSType::Int,
            TypeName::Long => EFSType::Long,
            TypeName::Float => EFSType::Float,
            TypeName::Double => EFSType::Double,
            TypeName::String => EFSType::String,
            TypeName::Bool => EFSType::Bool,
            TypeName::Dict => EFSType::Dict,
            TypeName::NBTByteArray => EFSType::NBTByteArray,
            TypeName::NBTIntArray => EFSType::NBTIntArray,
            TypeName::NBTLongArray => EFSType::NBTLongArray,
            TypeName::Nil => EFSType::Nil,
        }
    }

    /// Maps a type name to its static type, one to one.
    pub fn to_type(&self) -> (ty: EFSType)
        ensures
            ty == self.spec_to_type(),
    {
        match self {
            TypeName::Number => EFSType::Number,
            TypeName::Byte => EFSType::Byte,
            TypeName::Short => EFSType::Short,
            TypeName::Int => EFSType::Int,
            TypeName::Long => EFSType::Long,
            TypeName::Float => EFSType::Float,
            TypeName::Double => EFSType::Double,
            TypeName::String => EFSType::String,
            TypeName::Bool => EFSType::Bool,
            TypeName::Dict => EFSType::Dict,
            TypeName::NBTByteArray => EFSType::NBTByteArray,
            TypeName::NBTIntArray => EFSType::NBTIntArray,
            TypeName::NBTLongArray => EFSType::NBTLongArray,
            TypeName::Nil => EFSType::Nil,
        }
    }

    /// Two different type names stand for two different types.
    pub proof fn lemma_to_type_injective(a: TypeName, b: TypeName)
        requires
            a.spec_to_type() == b.spec_to_type(),
        ensures
            a == b,
    {
    }
}

impl LexerType for TypeName {
    open spec fn spec_all() -> Seq<Self> {
        seq![
            TypeName::Number,
            TypeName::Byte,
            TypeName::Short,
            TypeName::Int,
            TypeName::Long,
            TypeName::Float,
            TypeName::Double,
            TypeName::String,
            TypeName::Bool,
            TypeName::Dict,
            TypeName::NBTByteArray,
            TypeName::NBTIntArray,
            TypeName::NBTLongArray,
            TypeName::Nil,
        ]
    }

    open spec fn spec_spelling(&self) -> Seq<char> {
        match self {
            TypeName::Number => "num"@,
            TypeName::Byte => "i8"@,
            TypeName::Short => "i16"@,
            TypeName::Int => "i32"@,
            TypeName::Long => "i64"@,
            TypeName::Float => "f32"@,
            TypeName::Double => "f64"@,
            TypeName::String => "string"@,
            TypeName::Bool => "bool"@,
            TypeName::Dict => "Dict"@,
            TypeName::NBTByteArray => "NBTi8Array"@,
            TypeName::NBTIntArray => "NBTi32Array"@,
            TypeName::NBTLongArray => "NBTi64Array"@,
            TypeName::Nil => "_"@,
        }
    }

    proof fn lemma_all_complete(member: Self) {
        let all = Self::spec_all();
        let at: int = match member {
            TypeName::Number => 0,
            TypeName::Byte => 1,
            TypeName::Short => 2,
            TypeName::Int => 3,
            TypeName::Long => 4,
            TypeName::Float => 5,
            TypeName::Double => 6,
            TypeName::String => 7,
            TypeName::Bool => 8,
            TypeName::Dict => 9,
            TypeName::NBTByteArray => 10,
            TypeName::NBTIntArray => 11,
            TypeName::NBTLongArray => 12,
            TypeName::Nil => 13,
        };
        assert(all[at] == member);
    }

    proof fn lemma_spelling_nonempty(member: Self) {
        Self::reveal_spellings();
    }

    proof fn lemma_spelling_injective(a: Self, b: Self) {
        Self::reveal_spellings();
        let s = a.spec_spelling();
        let t = b.spec_spelling();
        assert(s.len() == t.len());
        assert(s[0] == t[0]);
        if s.len() > 1 {
            assert(s[1] == t[1]);
        }
        if s.len() > 4 {
            assert(s[4] == t[4]);
        }
    }

    fn all() -> (members: Vec<Self>) {
        let members = vec![
            TypeName::Number,
            TypeName::Byte,
            TypeName::Short,
            TypeName::Int,
            TypeName::Long,
            TypeName::Float,
            TypeName::Double,
            TypeName::String,
            TypeName::Bool,
            TypeName::Dict,
            TypeName::NBTByteArray,
            TypeName::NBTIntArray,
            TypeName::NBTLongArray,
            TypeName::Nil,
        ];
        assert(members@ =~= Self::spec_all());
        members
    }

    fn spelling(&self) -> (text: &'static str) {
        match self {
            TypeName::Number => "num",
            TypeName::Byte => "i8",
            TypeName::Short => "i16",
            TypeName::Int => "i32",
            TypeName::Long => "i64",
            TypeName::Float => "f32",
            TypeName::Double => "f64",
            TypeName::String => "string",
            TypeName::Bool => "bool",
            TypeName::Dict => "Dict",
            TypeName::NBTByteArray => "NBTi8Array",
            TypeName::NBTIntArray => "NBTi32Array",
            TypeName::NBTLongArray => "NBTi64Array",
            TypeName::Nil => "_",
        }
    }
}

impl TypeName {
    /// The canonical spelling of this type name, as a text of its own.
    pub fn to_string(&self) -> (text: String)
        ensures
            text@ == self.spec_spelling(),
    {
        String::from_str(self.spelling())
    }

    /// Makes the characters of every type name's spelling known.
    pub proof fn reveal_spellings()
        ensures
            "num"@ =~= seq!['n', 'u', 'm'],
            "i8"@ =~= seq!['i', '8'],
            "i16"@ =~= seq!['i', '1', '6'],
            "i32"@ =~= seq!['i', '3', '2'],
            "i64"@ =~= seq!['i', '6', '4'],
            "f32"@ =~= seq!['f', '3', '2'],
            "f64"@ =~= seq!['f', '6', '4'],
            "string"@ =~= seq!['s', 't', 'r', 'i', 'n', 'g'],
            "bool"@ =~= seq!['b', 'o', 'o', 'l'],
            "Dict"@ =~= seq!['D', 'i', 'c', 't'],
            "NBTi8Array"@ =~= seq!['N', 'B', 'T', 'i', '8', 'A', 'r', 'r', 'a', 'y'],
            "NBTi32Array"@ =~= seq!['N', 'B', 'T', 'i', '3', '2', 'A', 'r', 'r', 'a', 'y'],
            "NBTi64Array"@ =~= seq!['N', 'B', 'T', 'i', '6', '4', 'A', 'r', 'r', 'a', 'y'],
            "_"@ =~= seq!['_'],
    {
        reveal_strlit("num");
        reveal_strlit("i8");
        reveal_strlit("i16");
        reveal_strlit("i32");
        reveal_strlit("i64");
        reveal_strlit("f32");
        reveal_strlit("f64");
        reveal_strlit("string");
        reveal_strlit("bool");
        reveal_strlit("Dict");
        reveal_strlit("NBTi8Array");
        reveal_strlit("NBTi32Array");
        reveal_strlit("NBTi64Array");
        reveal_strlit("_");
    }
}

/// The reserved words, the names of the built-in types among them.
#[derive(Debug, Clone, Copy, PartialEq, Eq, Structural)]
pub enum Keyword {
    Static,
    Function,
    For,
    While,
    Const,
    VarDeceleration,
    UseFile,
    If,
    Struct,
    In,
    True,
    False,
    Nil,
    TypeName(TypeName),
}

impl LexerType for Keyword {
    open spec fn spec_all() -> Seq<Self> {
        seq![
            Keyword::Static,
            Keyword::Function,
            Keyword::For,
            Keyword::While,
            Keyword::Const,
            Keyword::VarDeceleration,
            Keyword::UseFile,
            Keyword::If,
            Keyword::Struct,
            Keyword::In,
            Keyword::True,
            Keyword::False,
            Keyword::Nil,
        ] + TypeName::spec_all().map_values(|name: TypeName| Keyword::TypeName(name))
    }

    open spec fn spec_spelling(&self) -> Seq<char> {
        match self {
            Keyword::Static => "static"@,
            Keyword::Function => "fn"@,
            Keyword::For => "for"@,
            Keyword::While => "while"@,
            Keyword::Const => "const"@,
            Keyword::VarDeceleration => "let"@,
            Keyword::UseFile => "use"@,
            Keyword::If => "if"@,
            Keyword::Struct => "struct"@,
            Keyword::In => "in"@,
            Keyword::True => "true"@,
            Keyword::False => "false"@,
            Keyword::Nil => "None"@,
            Keyword::TypeName(name) => name.spec_spelling(),
        }
    }

    proof fn lemma_all_complete(member: Self) {
        let all = Self::spec_all();
        let own = all.subrange(0, 13);
        let names = TypeName::spec_all();
        match member {
            Keyword::TypeName(name) => {
                TypeName::lemma_all_complete(name);
                let at = choose|at: int| 0 <= at < names.len() && names[at] == name;
                assert(all[13 + at] == member);
            },
            Keyword::Static => {
                assert(all[0] == member);
            },
            Keyword::Function => {
                assert(all[1] == member);
            },
            Keyword::For => {
                assert(all[2] == member);
            },
            Keyword::While => {
                assert(all[3] == member);
            },
            Keyword::Const => {
                assert(all[4] == member);
            },
            Keyword::VarDeceleration => {
                assert(all[5] == member);
            },
            Keyword::UseFile => {
                assert(all[6] == member);
            },
            Keyword::If => {
                assert(all[7] == member);
            },
            Keyword::Struct => {
                assert(all[8] == member);
            },
            Keyword::In => {
                assert(all[9] == member);
            },
            Keyword::True => {
                assert(all[10] == member);
            },
            Keyword::False => {
                assert(all[11] == member);
            },
            Keyword::Nil => {
                assert(all[12] == member);
            },
        }
    }

    proof fn lemma_spelling_nonempty(member: Self) {
        Self::reveal_spellings();
        TypeName::reveal_spellings();
    }

    proof fn lemma_spelling_injective(a: Self, b: Self) {
        Self::reveal_spellings();
        TypeName::reveal_spellings();
        let s = a.spec_spelling();
        let t = b.spec_spelling();
        assert(s.len() == t.len());
        assert(s[0] == t[0]);
        if s.len() > 1 {
            assert(s[1] == t[1]);
        }
        if s.len() > 2 {
            assert(s[2] == t[2]);
        }
        if s.len() > 3 {
            assert(s[3] == t[3]);
        }
        if s.len() > 4 {
            assert(s[4] == t[4]);
        }
    }

    fn all() -> (members: Vec<Self>) {
        let members = vec![
            Keyword::Static,
            Keyword::Function,
            Keyword::For,
            Keyword::While,
            Keyword::Const,
            Keyword::VarDeceleration,
            Keyword::UseFile,
            Keyword::If,
            Keyword::Struct,
            Keyword::In,
            Keyword::True,
            Keyword::False,
            Keyword::Nil,
            Keyword::TypeName(TypeName::Number),
            Keyword::TypeName(TypeName::Byte),
            Keyword::TypeName(TypeName::Short),
            Keyword::TypeName(TypeName::Int),
            Keyword::TypeName(TypeName::Long),
            Keyword::TypeName(TypeName::Float),
            Keyword::TypeName(TypeName::Double),
            Keyword::TypeName(TypeName::String),
            Keyword::TypeName(TypeName::Bool),
            Keyword::TypeName(TypeName::Dict),
            Keyword::TypeName(TypeName::NBTByteArray),
            Keyword::TypeName(TypeName::NBTIntArray),
            Keyword::TypeName(TypeName::NBTLongArray),
            Keyword::TypeName(TypeName::Nil),
        ];
        assert(members@ =~= Self::spec_all());
        members
    }

    fn spelling(&self) -> (text: &'static str) {
        match self {
            Keyword::Static => "static",
            Keyword::Function => "fn",
            Keyword::For => "for",
            Keyword::While => "while",
            Keyword::Const => "const",
            Keyword::VarDeceleration => "let",
            Keyword::UseFile => "use",
            Keyword::If => "if",
            Keyword::Struct => "struct",
            Keyword::In => "in",
            Keyword::True => "true",
            Keyword::False => "false",
            Keyword::Nil => "None",
            Keyword::TypeName(name) => name.spelling(),
        }
    }
}

impl Keyword {
    /// The canonical spelling of this reserved word, as a text of its own.
    pub fn to_string(&self) -> (text: String)
        ensures
            text@ == self.spec_spelling(),
    {
        String::from_str(self.spelling())
    }

    /// Recognizes the longest reserved word spelled at the start of `text`, and
    /// returns it with the length of its spelling.
    pub fn parse(text: &[char]) -> (found: Option<(Self, usize)>)
        ensures
            symbol_found(found) == spec_parse_symbol::<Self>(text@),
    {
        parse_symbol::<Self>(text)
    }

    /// Makes the characters of every reserved word's spelling known.
    pub proof fn reveal_spellings()
        ensures
            "static"@ =~= seq!['s', 't', 'a', 't', 'i', 'c'],
            "fn"@ =~= seq!['f', 'n'],
            "for"@ =~= seq!['f', 'o', 'r'],
            "while"@ =~= seq!['w', 'h', 'i', 'l', 'e'],
            "const"@ =~= seq!['c', 'o', 'n', 's', 't'],
            "let"@ =~= seq!['l', 'e', 't'],
            "use"@ =~= seq!['u', 's', 'e'],
            "if"@ =~= seq!['i', 'f'],
            "struct"@ =~= seq!['s', 't', 'r', 'u', 'c', 't'],
            "in"@ =~= seq!['i', 'n'],
            "true"@ =~= seq!['t', 'r', 'u', 'e'],
            "false"@ =~= seq!['f', 'a', 'l', 's', 'e'],
            "None"@ =~= seq!['N', 'o', 'n', 'e'],
    {
        reveal_strlit("static");
        reveal_strlit("fn");
        reveal_strlit("for");
        reveal_strlit("while");
        reveal_strlit("const");
        reveal_strlit("let");
        reveal_strlit("use");
        reveal_strlit("if");
        reveal_strlit("struct");
        reveal_strlit("in");
        reveal_strlit("true");
        reveal_strlit("false");
        reveal_strlit("None");
    }
}

/// The punctuation symbols.
#[derive(Debug, Clone, Copy, PartialEq, Eq, Structural)]
pub enum ControlCharacter {
    EndOfLine,
    Attribute,
    Comma,
    FunctionReturn,
    TypeClarify,
    Dot,
    Scope,
    LeftParen,
    RightParen,
    LBracket,
    RBracket,
    LBrace,
    RBrace,
    Assign,
}

impl LexerType for ControlCharacter {
    open spec fn spec_all() -> Seq<Self> {
        seq![
            ControlCharacter::EndOfLine,
            ControlCharacter::Attribute,
            ControlCharacter::Comma,
            ControlCharacter::FunctionReturn,
            ControlCharacter::TypeClarify,
            ControlCharacter::Dot,
            ControlCharacter::Scope,
            ControlCharacter::LeftParen,
            ControlCharacter::RightParen,
            ControlCharacter::LBracket,
            ControlCharacter::RBracket,
            ControlCharacter::LBrace,
            ControlCharacter::RBrace,
            ControlCharacter::Assign,
        ]
    }

    open spec fn spec_spelling(&self) -> Seq<char> {
        match self {
            ControlCharacter::EndOfLine => ";"@,
            ControlCharacter::Attribute => "#"@,
            ControlCharacter::Comma => ","@,
            ControlCharacter::FunctionReturn => "->"@,
            ControlCharacter::TypeClarify => ":"@,
            ControlCharacter::Dot => "."@,
            ControlCharacter::Scope => "::"@,
            ControlCharacter::LeftParen => "("@,
            ControlCharacter::RightParen => ")"@,
            ControlCharacter::LBracket => "["@,
            ControlCharacter::RBracket => "]"@,
            ControlCharacter::LBrace => "{"@,
            ControlCharacter::RBrace => "}"@,
            ControlCharacter::Assign => "="@,
        }
    }

    proof fn lemma_all_complete(member: Self) {
        let all = Self::spec_all();
        let at: int = match member {
            ControlCharacter::EndOfLine => 0,
            ControlCharacter::Attribute => 1,
            ControlCharacter::Comma => 2,
            ControlCharacter::FunctionReturn => 3,
            ControlCharacter::TypeClarify => 4,
            ControlCharacter::Dot => 5,
            ControlCharacter::Scope => 6,
            ControlCharacter::LeftParen => 7,
            ControlCharacter::RightParen => 8,
            ControlCharacter::LBracket => 9,
            ControlCharacter::RBracket => 10,
            ControlCharacter::LBrace => 11,
            ControlCharacter::RBrace => 12,
            ControlCharacter::Assign => 13,
        };
        assert(all[at] == member);
    }

    proof fn lemma_spelling_nonempty(member: Self) {
        Self::reveal_spellings();
    }

    proof fn lemma_spelling_injective(a: Self, b: Self) {
        Self::reveal_spellings();
        let s = a.spec_spelling();
        let t = b.spec_spelling();
        assert(s.len() == t.len());
        assert(s[0] == t[0]);
        if s.len() > 1 {
            assert(s[1] == t[1]);
        }
    }

    fn all() -> (members: Vec<Self>) {
        let members = vec![
            ControlCharacter::EndOfLine,
            ControlCharacter::Attribute,
            ControlCharacter::Comma,
            ControlCharacter::FunctionReturn,
            ControlCharacter::TypeClarify,
            ControlCharacter::Dot,
            ControlCharacter::Scope,
            ControlCharacter::LeftParen,
            ControlCharacter::RightParen,
            ControlCharacter::LBracket,
            ControlCharacter::RBracket,
            ControlCharacter::LBrace,
            ControlCharacter::RBrace,
            ControlCharacter::Assign,
        ];
        assert(members@ =~= Self::spec_all());
        members
    }

    fn spelling(&self) -> (text: &'static str) {
        match self {
            ControlCharacter::EndOfLine => ";",
            ControlCharacter::Attribute => "#",
            ControlCharacter::Comma => ",",
            ControlCharacter::FunctionReturn => "->",
            ControlCharacter::TypeClarify => ":",
            ControlCharacter::Dot => ".",
            ControlCharacter::Scope => "::",
            ControlCharacter::LeftParen => "(",
            ControlCharacter::RightParen => ")",
            ControlCharacter::LBracket => "[",
            ControlCharacter::RBracket => "]",
            ControlCharacter::LBrace => "{",
            ControlCharacter::RBrace => "}",
            ControlCharacter::Assign => "=",
        }
    }
}

impl ControlCharacter {
    /// The canonical spelling of this punctuation symbol, as a text of its own.
    pub fn to_string(&self) -> (text: String)
        ensures
            text@ == self.spec_spelling(),
    {
        String::from_str(self.spelling())
    }

    /// Recognizes the longest punctuation symbol spelled at the start of `text`, and
    /// returns it with the length of its spelling.
    pub fn parse(text: &[char]) -> (found: Option<(Self, usize)>)
        ensures
            symbol_found(found) == spec_parse_symbol::<Self>(text@),
    {
        parse_symbol::<Self>(text)
    }

    /// Makes the characters of every punctuation symbol's spelling known.
    pub proof fn reveal_spellings()
        ensures
            ";"@ =~= seq![';'],
            "#"@ =~= seq!['#'],
            ","@ =~= seq![','],
            "->"@ =~= seq!['-', '>'],
            ":"@ =~= seq![':'],
            "."@ =~= seq!['.'],
            "::"@ =~= seq![':', ':'],
            "("@ =~= seq!['('],
            ")"@ =~= seq![')'],
            "["@ =~= seq!['['],
            "]"@ =~= seq![']'],
            "{"@ =~= seq!['{'],
            "}"@ =~= seq!['}'],
            "="@ =~= seq!['='],
    {
        reveal_strlit(";");
        reveal_strlit("#");
        reveal_strlit(",");
        reveal_strlit("->");
        reveal_strlit(":");
        reveal_strlit(".");
        reveal_strlit("::");
        reveal_strlit("(");
        reveal_strlit(")");
        reveal_strlit("[");
        reveal_strlit("]");
        reveal_strlit("{");
        reveal_strlit("}");
        reveal_strlit("=");
    }
}

/// The operator symbols.
#[derive(Debug, Clone, Copy, PartialEq, Eq, Structural)]
pub enum Operator {
    Plus,
    Minus,
    Multi,
    Div,
    Equal,
    NotEqual,
    Less,
    LessOrEqual,
    Greater,
    GreaterOrEqual,
    LogicalOr,
    LogicalAnd,
    Or,
    And,
    Xor,
}

impl LexerType for Operator {
    open spec fn spec_all() -> Seq<Self> {
        seq![
            Operator::Plus,
            Operator::Minus,
            Operator::Multi,
            Operator::Div,
            Operator::Equal,
            Operator::NotEqual,
            Operator::Less,
            Operator::LessOrEqual,
            Operator::Greater,
            Operator::GreaterOrEqual,
            Operator::LogicalOr,
            Operator::LogicalAnd,
            Operator::Or,
            Operator::And,
            Operator::Xor,
        ]
    }

    open spec fn spec_spelling(&self) -> Seq<char> {
        match self {
            Operator::Plus => "+"@,
            Operator::Minus => "-"@,
            Operator::Multi => "*"@,
            Operator::Div => "/"@,
            Operator::Equal => "=="@,
            Operator::NotEqual => "!="@,
            Operator::Less => "<"@,
            Operator::LessOrEqual => "<="@,
            Operator::Greater => ">"@,
            Operator::GreaterOrEqual => ">="@,
            Operator::LogicalOr => "||"@,
            Operator::LogicalAnd => "&&"@,
            Operator::Or => "|"@,
            Operator::And => "&"@,
            Operator::Xor => "^"@,
        }
    }

    proof fn lemma_all_complete(member: Self) {
        let all = Self::spec_all();
        let at: int = match member {
            Operator::Plus => 0,
            Operator::Minus => 1,
            Operator::Multi => 2,
            Operator::Div => 3,
            Operator::Equal => 4,
            Operator::NotEqual => 5,
            Operator::Less => 6,
            Operator::LessOrEqual => 7,
            Operator::Greater => 8,
            Operator::GreaterOrEqual => 9,
            Operator::LogicalOr => 10,
            Operator::LogicalAnd => 11,
            Operator::Or => 12,
            Operator::And => 13,
            Operator::Xor => 14,
        };
        assert(all[at] == member);
    }

    proof fn lemma_spelling_nonempty(member: Self) {
        Self::reveal_spellings();
    }

    proof fn lemma_spelling_injective(a: Self, b: Self) {
        Self::reveal_spellings();
        let s = a.spec_spelling();
        let t = b.spec_spelling();
        assert(s.len() == t.len());
        assert(s[0] == t[0]);
        if s.len() > 1 {
            assert(s[1] == t[1]);
        }
    }

    fn all() -> (members: Vec<Self>) {
        let members = vec![
            Operator::Plus,
            Operator::Minus,
            Operator::Multi,
            Operator::Div,
            Operator::Equal,
            Operator::NotEqual,
            Operator::Less,
            Operator::LessOrEqual,
            Operator::Greater,
            Operator::GreaterOrEqual,
            Operator::LogicalOr,
            Operator::LogicalAnd,
            Operator::Or,
            Operator::And,
            Operator::Xor,
        ];
        assert(members@ =~= Self::spec_all());
        members
    }

    fn spelling(&self) -> (text: &'static str) {
        match self {
            Operator::Plus => "+",
            Operator::Minus => "-",
            Operator::Multi => "*",
            Operator::Div => "/",
            Operator::Equal => "==",
            Operator::NotEqual => "!=",
            Operator::Less => "<",
            Operator::LessOrEqual => "<=",
            Operator::Greater => ">",
            Operator::GreaterOrEqual => ">=",
            Operator::LogicalOr => "||",
            Operator::LogicalAnd => "&&",
            Operator::Or => "|",
            Operator::And => "&",
            Operator::Xor => "^",
        }
    }
}

impl Operator {
    /// The canonical spelling of this operator, as a text of its own.
    pub fn to_string(&self) -> (text: String)
        ensures
            text@ == self.spec_spelling(),
    {
        String::from_str(self.spelling())
    }

    /// Recognizes the longest operator spelled at the start of `text`, and
    /// returns it with the length of its spelling.
    pub fn parse(text: &[char]) -> (found: Option<(Self, usize)>)
        ensures
            symbol_found(found) == spec_parse_symbol::<Self>(text@),
    {
        parse_symbol::<Self>(text)
    }

    /// Makes the characters of every operator's spelling known.
    pub proof fn reveal_spellings()
        ensures
            "+"@ =~= seq!['+'],
            "-"@ =~= seq!['-'],
            "*"@ =~= seq!['*'],
            "/"@ =~= seq!['/'],
            "=="@ =~= seq!['=', '='],
            "!="@ =~= seq!['!', '='],
            "<"@ =~= seq!['<'],
            "<="@ =~= seq!['<', '='],
            ">"@ =~= seq!['>'],
            ">="@ =~= seq!['>', '='],
            "||"@ =~= seq!['|', '|'],
            "&&"@ =~= seq!['&', '&'],
            "|"@ =~= seq!['|'],
            "&"@ =~= seq!['&'],
            "^"@ =~= seq!['^'],
    {
        reveal_strlit("+");
        reveal_strlit("-");
        reveal_strlit("*");
        reveal_strlit("/");
        reveal_strlit("==");
        reveal_strlit("!=");
        reveal_strlit("<");
        reveal_strlit("<=");
        reveal_strlit(">");
        reveal_strlit(">=");
        reveal_strlit("||");
        reveal_strlit("&&");
        reveal_strlit("|");
        reveal_strlit("&");
        reveal_strlit("^");
    }
}

impl Operator {
    /// The precedence number of an operator, as the language's table lists
    /// it: `*` and `/` have 5, `+` and `-` have 6, the comparisons 2, the
    /// bitwise operators 4 and the logical operators 3.
    pub open spec fn spec_precedence(&self) -> u8 {
        match self {
            Operator::Plus | Operator::Minus => 6,
            Operator::Multi | Operator::Div => 5,
            Operator::Equal
            | Operator::NotEqual
            | Operator::Less
            | Operator::LessOrEqual
            | Operator::Greater
            | Operator::GreaterOrEqual => 2,
            Operator::LogicalOr | Operator::LogicalAnd => 3,
            Operator::Or | Operator::And | Operator::Xor => 4,
        }
    }

    /// The precedence number of an operator in the language's table.
    pub fn precedence(&self) -> (number: u8)
        ensures
            number == self.spec_precedence(),
    {
        match self {
            Operator::Plus => 6,
            Operator::Minus => 6,
            Operator::Multi => 5,
            Operator::Div => 5,
            Operator::Equal => 2,
            Operator::NotEqual => 2,
            Operator::Less => 2,
            Operator::LessOrEqual => 2,
            Operator::Greater => 2,
            Operator::GreaterOrEqual => 2,
            Operator::LogicalOr => 3,
            Operator::LogicalAnd => 3,
            Operator::Or => 4,
            Operator::And => 4,
            Operator::Xor => 4,
        }
    }

    /// How tightly an operator binds its operands; a higher rank binds
    /// tighter. Multiplication and division bind tightest, then addition and
    /// subtraction, then the comparisons, then the bitwise operators, and the
    /// logical operators bind loosest.
    pub open spec fn spec_binding(&self) -> u8 {
        match self {
            Operator::Multi | Operator::Div => 5,
            Operator::Plus | Operator::Minus => 4,
            Operator::Equal
            | Operator::NotEqual
            | Operator::Less
            | Operator::LessOrEqual
            | Operator::Greater
            | Operator::GreaterOrEqual => 3,
            Operator::Or | Operator::And | Operator::Xor => 2,
            Operator::LogicalOr | Operator::LogicalAnd => 1,
        }
    }

    /// How tightly an operator binds its operands, from 1 (loosest) to 5.
    pub fn binding(&self) -> (rank: u8)
        ensures
            rank == self.spec_binding(),
            1 <= rank <= 5,
    {
        match self {
            Operator::Multi | Operator::Div => 5,
            Operator::Plus | Operator::Minus => 4,
            Operator::Equal
            | Operator::NotEqual
            | Operator::Less
            | Operator::LessOrEqual
            | Operator::Greater
            | Operator::GreaterOrEqual => 3,
            Operator::Or | Operator::And | Operator::Xor => 2,
            Operator::LogicalOr | Operator::LogicalAnd => 1,
        }
    }
}

/// One lexical unit of a source text.
///
/// A `Float` holds the literal as it is written, sign and digits; a
/// `FilePath` holds the path as it is written.
#[derive(Debug)]
pub enum Token {
    Identifier(String),
    Integer(i64),
    Float(String),
    String(String),
    Keyword(Keyword),
    ControlCharacter(ControlCharacter),
    Operator(Operator),
    FilePath(String),
    EOI,
}

/// The mathematical model of a [`Token`], with text as a sequence of
/// characters.
pub ghost enum TokenModel {
    Identifier(Seq<char>),
    Integer(i64),
    Float(Seq<char>),
    String(Seq<char>),
    Keyword(Keyword),
    ControlCharacter(ControlCharacter),
    Operator(Operator),
    FilePath(Seq<char>),
    EOI,
}

/// The kind of a token: what a grammar rule can ask for.
#[derive(Debug, Clone, Copy, PartialEq, Eq, Structural)]
pub enum TokenType {
    Identifier,
    Integer,
    Float,
    String,
    Keyword(Keyword),
    ControlCharacter(ControlCharacter),
    Operator(Operator),
    FilePath,
    EOI,
    TypeName,
}

impl TokenModel {
    /// The kind of a token. Every name of a built-in type has the one kind
    /// `TypeName`; every other reserved word, punctuation symbol and operator
    /// is a kind of its own.
    pub open spec fn token_type(self) -> TokenType {
        match self {
            TokenModel::Identifier(_) => TokenType::Identifier,
            TokenModel::Integer(_) => TokenType::Integer,
            TokenModel::Float(_) => TokenType::Float,
            TokenModel::String(_) => TokenType::String,
            TokenModel::Keyword(Keyword::TypeName(_)) => TokenType::TypeName,
            TokenModel::Keyword(word) => TokenType::Keyword(word),
            TokenModel::ControlCharacter(symbol) => TokenType::ControlCharacter(symbol),
            TokenModel::Operator(operator) => TokenType::Operator(operator),
            TokenModel::FilePath(_) => TokenType::FilePath,
            TokenModel::EOI => TokenType::EOI,
        }
    }
}

impl View for Token {
    type V = TokenModel;

    open spec fn view(&self) -> TokenModel {
        match self {
            Token::Identifier(name) => TokenModel::Identifier(name@),
            Token::Integer(value) => TokenModel::Integer(*value),
            Token::Float(literal) => TokenModel::Float(literal@),
            Token::String(text) => TokenModel::String(text@),
            Token::Keyword(word) => TokenModel::Keyword(*word),
            Token::ControlCharacter(symbol) => TokenModel::ControlCharacter(*symbol),
            Token::Operator(operator) => TokenModel::Operator(*operator),
            Token::FilePath(path) => TokenModel::FilePath(path@),
            Token::EOI => TokenModel::EOI,
        }
    }
}

impl Clone for Token {
    fn clone(&self) -> (copy: Self)
        ensures
            copy == *self,
    {
        match self {
            Token::Identifier(name) => Token::Identifier(name.clone()),
            Token::Integer(value) => Token::Integer(*value),
            Token::Float(literal) => Token::Float(literal.clone()),
            Token::String(text) => Token::String(text.clone()),
            Token::Keyword(word) => Token::Keyword(*word),
            Token::ControlCharacter(symbol) => Token::ControlCharacter(*symbol),
            Token::Operator(operator) => Token::Operator(*operator),
            Token::FilePath(path) => Token::FilePath(path.clone()),
            Token::EOI => Token::EOI,
        }
    }
}

impl PartialEq for Token {
    fn eq(&self, other: &Self) -> (equal: bool) {
        match (self, other) {
            (Token::Identifier(a), Token::Identifier(b)) => *a == *b,
            (Token::Integer(a), Token::Integer(b)) => *a == *b,
            (Token::Float(a), Token::Float(b)) => *a == *b,
            (Token::String(a), Token::String(b)) => *a == *b,
            (Token::Keyword(a), Token::Keyword(b)) => *a == *b,
            (Token::ControlCharacter(a), Token::ControlCharacter(b)) => *a == *b,
            (Token::Operator(a), Token::Operator(b)) => *a == *b,
            (Token::FilePath(a), Token::FilePath(b)) => *a == *b,
            (Token::EOI, Token::EOI) => true,
            _ => false,
        }
    }
}

impl vstd::std_specs::cmp::PartialEqSpecImpl for Token {
    open spec fn obeys_eq_spec() -> bool {
        true
    }

    open spec fn eq_spec(&self, other: &Self) -> bool {
        self@ == other@
    }
}

impl Token {
    /// The kind of this token.
    pub fn token_type(&self) -> (kind: TokenType)
        ensures
            kind == self@.token_type(),
    {
        match self {
            Token::Identifier(_) => TokenType::Identifier,
            Token::Integer(_) => TokenType::Integer,
            Token::Float(_) => TokenType::Float,
            Token::Keyword(Keyword::TypeName(_)) => TokenType::TypeName,
            Token::Keyword(word) => TokenType::Keyword(*word),
            Token::ControlCharacter(symbol) => TokenType::ControlCharacter(*symbol),
            Token::Operator(operator) => TokenType::Operator(*operator),
            Token::EOI => TokenType::EOI,
            Token::String(_) => TokenType::String,
            Token::FilePath(_) => TokenType::FilePath,
        }
    }

    /// Whether this token is of the kind `expected`. Kinds are compared
    /// exactly.
    pub fn is(&self, expected: TokenType) -> (yes: bool)
        ensures
            yes == (self@.token_type() == expected),
    {
        self.token_type() == expected
    }

    /// Whether this token is of one of the kinds in `expected`.
    pub fn is_many(&self, expected: &[TokenType]) -> (yes: bool)
        ensures
            yes == expected@.contains(self@.token_type()),
    {
        let kind = self.token_type();
        let mut at: usize = 0;
        while at < expected.len()
            invariant
                at <= expected.len(),
                kind == self@.token_type(),
                forall|j: int| 0 <= j < at ==> expected@[j] != kind,
            decreases expected.len() - at,
        {
            if expected[at] == kind {
                return true;
            }
            at += 1;
        }
        false
    }
}

/// Appends one character to a text.
///
/// This is `String::push` of the standard library: afterwards the text is
/// what it was, followed by `c`.
#[verifier::external_body]
pub(crate) fn push_char(text: &mut String, c: char)
    ensures
        final(text)@ == old(text)@.push(c),
{
    text.push(c);
}

/// The characters of `chars` from position `from` up to, not including,
/// position `to`, as a text.
pub fn text_of(chars: &[char], from: usize, to: usize) -> (text: String)
    requires
        from <= to <= chars.len(),
    ensures
        text@ == chars@.subrange(from as int, to as int),
{
    let mut text = String::new();
    let mut at: usize = from;
    while at < to
        invariant
            from <= at <= to <= chars.len(),
            text@ == chars@.subrange(from as int, at as int),
        decreases to - at,
    {
        push_char(&mut text, chars[at]);
        at += 1;
        assert(text@ =~= chars@.subrange(from as int, at as int));
    }
    assert(text@ =~= chars@.subrange(from as int, to as int));
    text
}

/// What an attempt to recognize a token found, as a mathematical value: the
/// token's model and its length, or nothing.
pub open spec fn scanned(found: Option<(Token, usize)>) -> Option<(TokenModel, nat)> {
    match found {
        Some((token, length)) => Some((token@, length as nat)),
        None => None,
    }
}

/// Of two attempts at one position, the one that counts: the longer match,
/// and the first of the two where both are equally long.
pub open spec fn better(
    first: Option<(TokenModel, nat)>,
    second: Option<(TokenModel, nat)>,
) -> Option<(TokenModel, nat)> {
    match (first, second) {
        (Some(a), Some(b)) => if b.1 > a.1 {
            second
        } else {
            first
        },
        (Some(_), None) => first,
        (None, _) => second,
    }
}

/// The number with the given sign and magnitude.
pub open spec fn signed(negative: bool, magnitude: int) -> int {
    if negative {
        -magnitude
    } else {
        magnitude
    }
}

/// The identifier at the start of `text`: a letter or underscore, then
/// letters, digits and underscores, as many as follow.
pub open spec fn spec_parse_identifier(text: Seq<char>) -> Option<(TokenModel, nat)> {
    if text.len() > 0 && is_identifier_start(text[0]) {
        let end = span(text, 1, CharClass::IdentifierPart);
        Some((TokenModel::Identifier(text.subrange(0, end)), end as nat))
    } else {
        None
    }
}

/// The unquoted path at the start of `text`: letters, digits, underscores,
/// slashes and dots, at least one and as many as follow.
pub open spec fn spec_parse_path(text: Seq<char>) -> Option<(TokenModel, nat)> {
    let end = span(text, 0, CharClass::PathPart);
    if end > 0 {
        Some((TokenModel::FilePath(text.subrange(0, end)), end as nat))
    } else {
        None
    }
}

/// The string literal at the start of `text`: a double quote, then
/// everything up to the next double quote. No escape sequence is read, and a
/// literal that is never closed is no literal.
pub open spec fn spec_parse_string(text: Seq<char>) -> Option<(TokenModel, nat)> {
    if text.len() > 0 && text[0] == '"' {
        let end = span(text, 1, CharClass::StringBody);
        if end < text.len() {
            Some((TokenModel::String(text.subrange(1, end)), (end + 1) as nat))
        } else {
            None
        }
    } else {
        None
    }
}

/// The numeric literal at the start of `text`: an optional minus sign, one
/// or more digits, and optionally a dot with one or more digits. With the
/// fraction it is a `Float`, which holds the literal as written; without, it
/// is an `Integer` of the value written, and no literal at all where that
/// value does not fit 64 bits.
pub open spec fn spec_parse_number(text: Seq<char>) -> Option<(TokenModel, nat)> {
    let negative = text.len() > 0 && text[0] == '-';
    let first: int = if negative {
        1
    } else {
        0
    };
    let whole_end = span(text, first, CharClass::Digit);
    let fraction_end = span(text, whole_end + 1, CharClass::Digit);
    let value = signed(negative, decimal_value(text.subrange(first, whole_end)));
    if whole_end == first {
        None
    } else if whole_end < text.len() && text[whole_end] == '.' && fraction_end > whole_end + 1 {
        Some((TokenModel::Float(text.subrange(0, fraction_end)), fraction_end as nat))
    } else if i64::MIN <= value <= i64::MAX {
        Some((TokenModel::Integer(value as i64), whole_end as nat))
    } else {
        None
    }
}

/// The reserved word at the start of `text`, as a token.
pub open spec fn spec_parse_keyword(text: Seq<char>) -> Option<(TokenModel, nat)> {
    match spec_parse_symbol::<Keyword>(text) {
        Some((word, length)) => Some((TokenModel::Keyword(word), length)),
        None => None,
    }
}

/// The punctuation symbol at the start of `text`, as a token.
pub open spec fn spec_parse_control(text: Seq<char>) -> Option<(TokenModel, nat)> {
    match spec_parse_symbol::<ControlCharacter>(text) {
        Some((symbol, length)) => Some((TokenModel::ControlCharacter(symbol), length)),
        None => None,
    }
}

/// The operator at the start of `text`, as a token.
pub open spec fn spec_parse_operator(text: Seq<char>) -> Option<(TokenModel, nat)> {
    match spec_parse_symbol::<Operator>(text) {
        Some((operator, length)) => Some((TokenModel::Operator(operator), length)),
        None => None,
    }
}

/// The token at the start of `text`, with its length.
///
/// An empty text holds the end of input, of length 0. Otherwise a reserved
/// word, an identifier, a numeric literal, a string literal, a punctuation
/// symbol and an operator are each looked for, and the longest match is the
/// token; where a reserved word and an identifier are equally long, it is the
/// reserved word. Where nothing matches there is no token.
pub open spec fn spec_parse(text: Seq<char>) -> Option<(TokenModel, nat)> {
    if text.len() == 0 {
        Some((TokenModel::EOI, 0))
    } else {
        better(
            better(
                better(
                    better(
                        better(spec_parse_keyword(text), spec_parse_identifier(text)),
                        spec_parse_number(text),
                    ),
                    spec_parse_string(text),
                ),
                spec_parse_control(text),
            ),
            spec_parse_operator(text),
        )
    }
}

/// The token at the start of `text` where the operand of an import stands:
/// as [`spec_parse`], but an unquoted path is looked for too, and is the
/// token unless another match is longer.
pub open spec fn spec_parse_operand(text: Seq<char>) -> Option<(TokenModel, nat)> {
    if text.len() == 0 {
        Some((TokenModel::EOI, 0))
    } else {
        better(spec_parse_path(text), spec_parse(text))
    }
}

/// Of two attempts at one position, the one that counts.
fn prefer(first: Option<(Token, usize)>, second: Option<(Token, usize)>) -> (chosen: Option<
    (Token, usize),
>)
    ensures
        scanned(chosen) == better(scanned(first), scanned(second)),
{
    match (first, second) {
        (Some(a), Some(b)) => if b.1 > a.1 {
            Some(b)
        } else {
            Some(a)
        },
        (Some(a), None) => Some(a),
        (None, second) => second,
    }
}

/// The value of the numeral whose digits stand in `text` from `from` up to
/// `to`, negated where `negative` is set; nothing where it does not fit 64
/// bits.
fn integer_value(text: &[char], from: usize, to: usize, negative: bool) -> (value: Option<i64>)
    requires
        from <= to <= text.len(),
        forall|i: int| from <= i < to ==> is_digit(#[trigger] text@[i]),
    ensures
        ({
            let written = signed(negative, decimal_value(text@.subrange(from as int, to as int)));
            match value {
                Some(v) => v == written,
                None => !(i64::MIN <= written <= i64::MAX),
            }
        }),
{
    let ghost digits = text@.subrange(from as int, to as int);
    let mut magnitude: i128 = 0;
    let mut at: usize = from;
    assert(text@.subrange(from as int, from as int) =~= Seq::<char>::empty());
    while at < to
        invariant
            from <= at <= to <= text.len(),
            digits == text@.subrange(from as int, to as int),
            forall|i: int| from <= i < to ==> is_digit(#[trigger] text@[i]),
            magnitude == decimal_value(text@.subrange(from as int, at as int)),
            0 <= magnitude <= 0x8000_0000_0000_0000,
        decreases to - at,
    {
        let c = text[at];
        let d: i128 = (c as u32 - '0' as u32) as i128;
        let next: i128 = magnitude * 10 + d;
        proof {
            let longer = text@.subrange(from as int, at as int + 1);
            assert(longer.drop_last() =~= text@.subrange(from as int, at as int));
            assert(longer.last() == c);
            assert(d == digit_value(c));
            assert(next == decimal_value(longer));
            assert(digits.take(at + 1 - from) =~= longer);
            assert forall|i: int| 0 <= i < digits.len() implies is_digit(#[trigger] digits[i]) by {
                assert(digits[i] == text@[from + i]);
            }
            lemma_decimal_value_grows(digits, at + 1 - from);
        }
        if next > 0x8000_0000_0000_0000 {
            return None;
        }
        magnitude = next;
        at += 1;
    }
    if negative {
        Some((-magnitude) as i64)
    } else if magnitude == 0x8000_0000_0000_0000 {
        None
    } else {
        Some(magnitude as i64)
    }
}

impl Token {
    /// Recognizes the token at the start of `text` in any position but that
    /// of an import's operand, and returns it with its length; nothing where
    /// no token stands there.
    pub fn parse(text: &[char]) -> (found: Option<(Self, usize)>)
        ensures
            scanned(found) == spec_parse(text@),
    {
        if text.len() == 0 {
            return Some((Token::EOI, 0));
        }
        let keyword = match Keyword::parse(text) {
            Some((word, length)) => Some((Token::Keyword(word), length)),
            None => None,
        };
        let control = match ControlCharacter::parse(text) {
            Some((symbol, length)) => Some((Token::ControlCharacter(symbol), length)),
            None => None,
        };
        let operator = match Operator::parse(text) {
            Some((operator, length)) => Some((Token::Operator(operator), length)),
            None => None,
        };
        let found = prefer(keyword, Self::parse_identifier(text));
        let found = prefer(found, Self::parse_number(text));
        let found = prefer(found, Self::parse_string(text));
        let found = prefer(found, control);
        prefer(found, operator)
    }

    /// Recognizes the token at the start of `text` in the position of an
    /// import's operand, where an unquoted path may stand.
    pub fn parse_operand(text: &[char]) -> (found: Option<(Self, usize)>)
        ensures
            scanned(found) == spec_parse_operand(text@),
    {
        if text.len() == 0 {
            return Some((Token::EOI, 0));
        }
        prefer(Self::parse_path(text), Self::parse(text))
    }

    /// Recognizes an unquoted path at the start of `text`.
    pub fn parse_path(text: &[char]) -> (found: Option<(Self, usize)>)
        ensures
            scanned(found) == spec_parse_path(text@),
    {
        let end = scan(text, 0, CharClass::PathPart);
        if end == 0 {
            return None;
        }
        Some((Token::FilePath(text_of(text, 0, end)), end))
    }

    /// Recognizes an identifier at the start of `text`.
    pub fn parse_identifier(text: &[char]) -> (found: Option<(Self, usize)>)
        ensures
            scanned(found) == spec_parse_identifier(text@),
    {
        if text.len() == 0 || !identifier_start(text[0]) {
            return None;
        }
        let end = scan(text, 1, CharClass::IdentifierPart);
        Some((Token::Identifier(text_of(text, 0, end)), end))
    }

    /// Recognizes a string literal at the start of `text`.
    pub fn parse_string(text: &[char]) -> (found: Option<(Self, usize)>)
        ensures
            scanned(found) == spec_parse_string(text@),
    {
        if text.len() == 0 || text[0] != '"' {
            return None;
        }
        let end = scan(text, 1, CharClass::StringBody);
        if end >= text.len() {
            return None;
        }
        Some((Token::String(text_of(text, 1, end)), end + 1))
    }

    /// Recognizes a numeric literal at the start of `text`.
    pub fn parse_number(text: &[char]) -> (found: Option<(Self, usize)>)
        ensures
            scanned(found) == spec_parse_number(text@),
    {
        let negative = text.len() > 0 && text[0] == '-';
        let first: usize = if negative {
            1
        } else {
            0
        };
        let whole_end = scan(text, first, CharClass::Digit);
        if whole_end == first {
            return None;
        }
        if whole_end < text.len() && text[whole_end] == '.' {
            let fraction_end = scan(text, whole_end + 1, CharClass::Digit);
            if fraction_end > whole_end + 1 {
                return Some((Token::Float(text_of(text, 0, fraction_end)), fraction_end));
            }
        }
        proof {
            lemma_span(text@, first as int, CharClass::Digit);
        }
        match integer_value(text, first, whole_end, negative) {
            Some(value) => Some((Token::Integer(value), whole_end)),
            None => None,
        }
    }
}

/// A token with its place in the source text: the position of its first
/// character and the number of characters it spans.
#[derive(Debug)]
pub struct TokenHolder {
    pub start: usize,
    pub length: usize,
    pub token: Token,
}

/// The mathematical model of a [`TokenHolder`].
pub ghost struct Positioned {
    pub start: nat,
    pub length: nat,
    pub token: TokenModel,
}

impl View for TokenHolder {
    type V = Positioned;

    open spec fn view(&self) -> Positioned {
        Positioned { start: self.start as nat, length: self.length as nat, token: self.token@ }
    }
}

impl Clone for TokenHolder {
    fn clone(&self) -> (copy: Self)
        ensures
            copy == *self,
    {
        TokenHolder { start: self.start, length: self.length, token: self.token.clone() }
    }
}

/// The end of input as it is reported at position `pos`: a token of length 0.
pub open spec fn end_of_input(pos: nat) -> Positioned {
    Positioned { start: pos, length: 0, token: TokenModel::EOI }
}

/// The error that reports `at` where a token of one of the kinds `expected`
/// had to stand.
pub open spec fn unexpected(at: Positioned, expected: Seq<TokenType>) -> ParseErrorModel {
    ParseErrorModel { at, expected, rule: Rule::Grammar }
}

/// The outcome of testing a token against kinds, as a mathematical value.
pub open spec fn tested(outcome: Result<&TokenHolder, ParseError>) -> Result<
    Positioned,
    ParseErrorModel,
> {
    match outcome {
        Ok(holder) => Ok(holder@),
        Err(error) => Err(error@),
    }
}

/// What testing the token `at` against the kinds `expected` gives: the token
/// where its kind is among them, else the error that reports it.
pub open spec fn spec_is_many(at: Positioned, expected: Seq<TokenType>) -> Result<
    Positioned,
    ParseErrorModel,
> {
    if expected.contains(at.token.token_type()) {
        Ok(at)
    } else {
        Err(unexpected(at, expected))
    }
}

/// A copy of a list of kinds.
pub fn kinds(expected: &[TokenType]) -> (copy: Vec<TokenType>)
    ensures
        copy@ == expected@,
{
    let mut copy: Vec<TokenType> = Vec::new();
    let mut at: usize = 0;
    while at < expected.len()
        invariant
            at <= expected.len(),
            copy@ == expected@.take(at as int),
        decreases expected.len() - at,
    {
        copy.push(expected[at]);
        at += 1;
        assert(copy@ =~= expected@.take(at as int));
    }
    assert(expected@.take(at as int) =~= expected@);
    copy
}

impl TokenHolder {
    /// The token `token`, found at position `start` and `length` characters
    /// long.
    pub fn new(token: Token, start: usize, length: usize) -> (holder: Self)
        ensures
            holder == (TokenHolder { start, length, token }),
    {
        Self { start, length, token }
    }

    /// Tests this token against one kind: the token itself where it is of
    /// the kind `expected`, else the error that reports it.
    pub fn is(&self, expected: TokenType) -> (outcome: Result<&Self, ParseError>)
        ensures
            tested(outcome) == spec_is_many(self@, seq![expected]),
            outcome matches Ok(holder) ==> holder == self,
    {
        assert(seq![expected].contains(self@.token.token_type()) <==> self@.token.token_type()
            == expected) by {
            assert(seq![expected][0] == expected);
        }
        if self.token.is(expected) {
            Ok(self)
        } else {
            let mut list: Vec<TokenType> = Vec::new();
            list.push(expected);
            assert(list@ =~= seq![expected]);
            Err(ParseError { at: self.clone(), expected: list, rule: Rule::Grammar })
        }
    }

    /// Tests this token against several kinds: the token itself where it is
    /// of one of the kinds in `expected`, else the error that reports it.
    pub fn is_many(&self, expected: &[TokenType]) -> (outcome: Result<&Self, ParseError>)
        ensures
            tested(outcome) == spec_is_many(self@, expected@),
            outcome matches Ok(holder) ==> holder == self,
    {
        if self.token.is_many(expected) {
            Ok(self)
        } else {
            Err(ParseError { at: self.clone(), expected: kinds(expected), rule: Rule::Grammar })
        }
    }

    /// Tests the token `s` against one kind, where `s` may be missing
    /// because the tokens ran out: a missing token is the end of input at
    /// position `pos`.
    pub fn is_or_eoi(s: Option<&Self>, expected: TokenType, pos: usize) -> (outcome: Result<
        &Self,
        ParseError,
    >)
        ensures
            tested(outcome) == (match s {
                Some(holder) => spec_is_many(holder@, seq![expected]),
                None => Err(unexpected(end_of_input(pos as nat), seq![expected])),
            }),
            outcome matches Ok(holder) ==> s == Some(holder),
    {
        match s {
            Some(holder) => holder.is(expected),
            None => {
                let mut list: Vec<TokenType> = Vec::new();
                list.push(expected);
                assert(list@ =~= seq![expected]);
                Err(
                    ParseError {
                        at: TokenHolder { start: pos, length: 0, token: Token::EOI },
                        expected: list,
                        rule: Rule::Grammar,
                    },
                )
            },
        }
    }

    /// Tests the token `s` against several kinds, where `s` may be missing
    /// because the tokens ran out: a missing token is the end of input at
    /// position `pos`.
    pub fn is_many_or_eoi<'a>(s: Option<&'a Self>, expected: &[TokenType], pos: usize) -> (outcome:
        Result<&'a Self, ParseError>)
        ensures
            tested(outcome) == (match s {
                Some(holder) => spec_is_many(holder@, expected@),
                None => Err(unexpected(end_of_input(pos as nat), expected@)),
            }),
            outcome matches Ok(holder) ==> s == Some(holder),
    {
        match s {
            Some(holder) => holder.is_many(expected),
            None => Err(
                ParseError {
                    at: TokenHolder { start: pos, length: 0, token: Token::EOI },
                    expected: kinds(expected),
                    rule: Rule::Grammar,
                },
            ),
        }
    }
}

/// A symbol that is recognized is spelled at the start of the text, is the
/// longest of its set spelled there, and has the length of its spelling,
/// which is not zero.
pub proof fn lemma_symbol_bounds<T: LexerType>(text: Seq<char>)
    ensures
        spec_parse_symbol::<T>(text) matches Some((member, length)) ==> {
            &&& is_longest_match(member, text)
            &&& length == member.spec_spelling().len()
            &&& 0 < length <= text.len()
        },
{
    if let Some((member, length)) = spec_parse_symbol::<T>(text) {
        T::lemma_spelling_nonempty(member);
    }
}

/// A token lies within the text it is recognized in. Only the end of input
/// has length 0, and it is recognized in the empty text and nowhere else.
pub proof fn lemma_parse_bounds(text: Seq<char>)
    ensures
        spec_parse(text) matches Some((token, length)) ==> {
            &&& length <= text.len()
            &&& (length == 0 <==> text.len() == 0)
            &&& (token == TokenModel::EOI <==> text.len() == 0)
            &&& !(token is FilePath)
        },
        spec_parse_operand(text) matches Some((token, length)) ==> {
            &&& length <= text.len()
            &&& (length == 0 <==> text.len() == 0)
            &&& (token == TokenModel::EOI <==> text.len() == 0)
        },
        text.len() == 0 ==> spec_parse(text) is Some && spec_parse_operand(text) is Some,
{
    if text.len() > 0 {
        lemma_symbol_bounds::<Keyword>(text);
        lemma_symbol_bounds::<ControlCharacter>(text);
        lemma_symbol_bounds::<Operator>(text);
        lemma_span(text, 1, CharClass::IdentifierPart);
        lemma_span(text, 1, CharClass::StringBody);
        lemma_span(text, 0, CharClass::PathPart);
        lemma_span(text, 0, CharClass::Digit);
        if text.len() > 1 {
            lemma_span(text, 2, CharClass::Digit);
        }
        let negative = text[0] == '-';
        let first: int = if negative {
            1
        } else {
            0
        };
        lemma_span(text, first, CharClass::Digit);
        let whole_end = span(text, first, CharClass::Digit);
        if whole_end < text.len() {
            lemma_span(text, whole_end + 1, CharClass::Digit);
        }
    }
}

/// The six attempts to recognize a token at the start of `text`, in the
/// order in which ties between them are decided.
pub open spec fn attempts(text: Seq<char>) -> Seq<Option<(TokenModel, nat)>> {
    seq![
        spec_parse_keyword(text),
        spec_parse_identifier(text),
        spec_parse_number(text),
        spec_parse_string(text),
        spec_parse_control(text),
        spec_parse_operator(text),
    ]
}

/// The token of a text that is not empty is the longest match: it is one of
/// the six attempts, no attempt matched more characters, and of the
/// attempts that matched as many it is the first. So a reserved word wins
/// over an identifier of the same length, and a longer identifier wins over
/// a reserved word. Where no attempt matched, there is no token.
pub proof fn lemma_longest_match_wins(text: Seq<char>)
    requires
        text.len() > 0,
    ensures
        match spec_parse(text) {
            Some((token, length)) => exists|at: int|
                {
                    &&& 0 <= at < 6
                    &&& #[trigger] attempts(text)[at] == Some((token, length))
                    &&& forall|other: int|
                        0 <= other < 6 ==> (#[trigger] attempts(text)[other] matches Some(
                            (_, matched),
                        ) ==> matched <= length)
                    &&& forall|other: int|
                        0 <= other < at ==> (#[trigger] attempts(text)[other] matches Some(
                            (_, matched),
                        ) ==> matched < length)
                },
            None => forall|at: int| 0 <= at < 6 ==> #[trigger] attempts(text)[at] is None,
        },
{
    let all = attempts(text);
    let a0 = all[0];
    let a1 = better(a0, all[1]);
    let a2 = better(a1, all[2]);
    let a3 = better(a2, all[3]);
    let a4 = better(a3, all[4]);
    let a5 = better(a4, all[5]);
    assert(spec_parse(text) == a5);
    match a5 {
        Some((token, length)) => {
            let at: int = if all[0] == a5 {
                0
            } else if all[1] == a5 {
                1
            } else if all[2] == a5 {
                2
            } else if all[3] == a5 {
                3
            } else if all[4] == a5 {
                4
            } else {
                5
            };
            assert(all[at] == Some((token, length)));
            assert forall|other: int| 0 <= other < 6 implies (#[trigger] all[other] matches Some(
                (_, matched),
            ) ==> matched <= length) by {
                if other == 0 {
                } else if other == 1 {
                } else if other == 2 {
                } else if other == 3 {
                } else if other == 4 {
                } else {
                }
            }
            assert forall|other: int| 0 <= other < at implies (#[trigger] all[other] matches Some(
                (_, matched),
            ) ==> matched < length) by {
                if other == 0 {
                } else if other == 1 {
                } else if other == 2 {
                } else if other == 3 {
                } else if other == 4 {
                } else {
                }
            }
        },
        None => {
            assert forall|at: int| 0 <= at < 6 implies #[trigger] all[at] is None by {
                if at == 0 {
                } else if at == 1 {
                } else if at == 2 {
                } else if at == 3 {
                } else if at == 4 {
                } else {
                }
            }
        },
    }
}

} // verus!
