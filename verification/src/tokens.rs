//! The pattern registry: the closed set of token kinds, each bound to one
//! lexical pattern, and the token value produced by the scanner.

use vstd::prelude::*;

verus! {

/// The closed, ordered enumeration of lexical categories. The declaration
/// order is stable and externally observable: the ordinal position of a kind
/// is its priority when two kinds match spans of equal length (smaller
/// ordinal wins).
#[derive(Debug, Clone, Copy, PartialEq, Eq, Structural)]
pub enum TokenType {
    Token,
    Left,
    Right,
    NonAssoc,
    Type,
    Start,
    Union,
    Prec,

    PercentPercent,
    Colon,
    Semi,
    Pipe,

    PercentBlock,
    CodeBlock,
    UnionTag,

    Identifier,
    Number,
    CharConst,

    Comment,
    Whitespace,
}

impl TokenType {
    /// The position of this kind in declaration order; used only for the
    /// longest-match tie-break, never for runtime reflection.
    pub open spec fn ordinal(self) -> int {
        match self {
            TokenType::Token => 0,
            TokenType::Left => 1,
            TokenType::Right => 2,
            TokenType::NonAssoc => 3,
            TokenType::Type => 4,
            TokenType::Start => 5,
            TokenType::Union => 6,
            TokenType::Prec => 7,
            TokenType::PercentPercent => 8,
            TokenType::Colon => 9,
            TokenType::Semi => 10,
            TokenType::Pipe => 11,
            TokenType::PercentBlock => 12,
            TokenType::CodeBlock => 13,
            TokenType::UnionTag => 14,
            TokenType::Identifier => 15,
            TokenType::Number => 16,
            TokenType::CharConst => 17,
            TokenType::Comment => 18,
            TokenType::Whitespace => 19,
        }
    }

    /// Whether the kind is trivia: recognized by the scanner but filtered
    /// out by the streaming adapter.
    pub open spec fn is_trivia(self) -> bool {
        self == TokenType::Comment || self == TokenType::Whitespace
    }
}

/// Every kind, in declaration order.
pub open spec fn all_kinds() -> Seq<TokenType> {
    seq![
        TokenType::Token,
        TokenType::Left,
        TokenType::Right,
        TokenType::NonAssoc,
        TokenType::Type,
        TokenType::Start,
        TokenType::Union,
        TokenType::Prec,
        TokenType::PercentPercent,
        TokenType::Colon,
        TokenType::Semi,
        TokenType::Pipe,
        TokenType::PercentBlock,
        TokenType::CodeBlock,
        TokenType::UnionTag,
        TokenType::Identifier,
        TokenType::Number,
        TokenType::CharConst,
        TokenType::Comment,
        TokenType::Whitespace,
    ]
}

/// Each kind stands in `all_kinds` exactly at its own ordinal.
pub proof fn lemma_ordinal_positions(kind: TokenType)
    ensures
        0 <= kind.ordinal() < all_kinds().len(),
        all_kinds()[kind.ordinal()] == kind,
{
    match kind {
        TokenType::Token => {},
        TokenType::Left => {},
        TokenType::Right => {},
        TokenType::NonAssoc => {},
        TokenType::Type => {},
        TokenType::Start => {},
        TokenType::Union => {},
        TokenType::Prec => {},
        TokenType::PercentPercent => {},
        TokenType::Colon => {},
        TokenType::Semi => {},
        TokenType::Pipe => {},
        TokenType::PercentBlock => {},
        TokenType::CodeBlock => {},
        TokenType::UnionTag => {},
        TokenType::Identifier => {},
        TokenType::Number => {},
        TokenType::CharConst => {},
        TokenType::Comment => {},
        TokenType::Whitespace => {},
    }
}

impl TokenType {
    /// Every kind, in declaration order, as a vector: the executable face of
    /// the registry's fixed enumeration.
    pub fn all() -> (r: Vec<TokenType>)
        ensures
            r@ == all_kinds(),
    {
        let r: Vec<TokenType> = vec![
            TokenType::Token,
            TokenType::Left,
            TokenType::Right,
            TokenType::NonAssoc,
            TokenType::Type,
            TokenType::Start,
            TokenType::Union,
            TokenType::Prec,
            TokenType::PercentPercent,
            TokenType::Colon,
            TokenType::Semi,
            TokenType::Pipe,
            TokenType::PercentBlock,
            TokenType::CodeBlock,
            TokenType::UnionTag,
            TokenType::Identifier,
            TokenType::Number,
            TokenType::CharConst,
            TokenType::Comment,
            TokenType::Whitespace,
        ];
        proof {
            assert(r@ =~= all_kinds());
        }
        r
    }
}

impl TokenType {
    /// The textual/regular description of this kind's pattern.
    pub open spec fn pattern_text(self) -> Seq<char> {
        match self {
            TokenType::Token => "%token"@,
            TokenType::Left => "%left"@,
            TokenType::Right => "%right"@,
            TokenType::NonAssoc => "%nonassoc"@,
            TokenType::Type => "%type"@,
            TokenType::Start => "%start"@,
            TokenType::Union => "%union"@,
            TokenType::Prec => "%prec"@,
            TokenType::PercentPercent => "%%"@,
            TokenType::Colon => ":"@,
            TokenType::Semi => ";"@,
            TokenType::Pipe => "\\|"@,
            TokenType::PercentBlock => "%\\{"@,
            TokenType::CodeBlock => "\\{"@,
            TokenType::UnionTag => "<"@,
            TokenType::Identifier => "[_.a-zA-Z][_.0-9a-zA-Z]*"@,
            TokenType::Number => "(0[xX][0-9a-fA-F]*)|(0[0-7]*)|([1-9][0-9]*)"@,
            TokenType::CharConst =>
                "('\\\\U[0-9a-fA-F]{8}')|('\\\\u[0-9a-fA-F]{4}')|('\\\\x[0-9a-fA-F]+')|('\\\\[0-7]{1,3}')|('\\\\[?'\"\\\\abfnrtv]')|('[^'\\\\\\n\\r]')"@,
            TokenType::Comment => "(?s:/\\*.*?\\*/)"@,
            TokenType::Whitespace => "[ \\f\\n\\r\\t]+"@,
        }
    }

    /// The pattern bound to this kind: a pure lookup into the fixed
    /// registry. Patterns are regular expressions; the content classes
    /// spell out their C-like literal grammars as disjunctions.
    pub fn pattern(&self) -> (r: &'static str)
        ensures
            r@ == self.pattern_text(),
    {
        match self {
            TokenType::Token => "%token",
            TokenType::Left => "%left",
            TokenType::Right => "%right",
            TokenType::NonAssoc => "%nonassoc",
            TokenType::Type => "%type",
            TokenType::Start => "%start",
            TokenType::Union => "%union",
            TokenType::Prec => "%prec",
            TokenType::PercentPercent => "%%",
            TokenType::Colon => ":",
            TokenType::Semi => ";",
            TokenType::Pipe => "\\|",
            TokenType::PercentBlock => "%\\{",
            TokenType::CodeBlock => "\\{",
            TokenType::UnionTag => "<",
            TokenType::Identifier => "[_.a-zA-Z][_.0-9a-zA-Z]*",
            TokenType::Number => "(0[xX][0-9a-fA-F]*)|(0[0-7]*)|([1-9][0-9]*)",
            TokenType::CharConst =>
                "('\\\\U[0-9a-fA-F]{8}')|('\\\\u[0-9a-fA-F]{4}')|('\\\\x[0-9a-fA-F]+')|('\\\\[0-7]{1,3}')|('\\\\[?'\"\\\\abfnrtv]')|('[^'\\\\\\n\\r]')",
            TokenType::Comment => "(?s:/\\*.*?\\*/)",
            TokenType::Whitespace => "[ \\f\\n\\r\\t]+",
        }
    }
}

/// An immutable token: a kind paired with an owned copy of the exact input
/// span the kind's pattern matched.
#[derive(Debug, Clone)]
pub struct Token {
    pub token_type: TokenType,
    pub text: Vec<u8>,
}

impl Token {
    /// The kind the matched span was classified into.
    pub fn token_type(&self) -> (r: TokenType)
        ensures
            r == self.token_type,
    {
        self.token_type
    }

    /// The matched span, exactly as it stood in the input.
    pub fn text(&self) -> (r: &Vec<u8>)
        ensures
            r == self.text,
    {
        &self.text
    }
}

} // verus!
