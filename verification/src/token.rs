//! The token model: the closed set of lexical categories plus a source
//! position tag. Classification is table-driven and total: every character
//! maps to exactly one kind (falling through to `Illegal`), and every scanned
//! word maps to exactly one kind (a `Keyword` on an exact, case-sensitive
//! match, otherwise an `Identifier`).

use vstd::prelude::*;

verus! {

/// The reserved words of the language.
#[derive(Clone, Copy, PartialEq, Eq, Debug)]
pub enum Keyword {
    Let,
    Function,
    Return,
    If,
    Else,
}

/// Source position of the first character of a token, 1-based.
#[derive(Clone, Copy, PartialEq, Eq, Structural, Debug)]
pub struct Span {
    pub line: u32,
    pub col: u32,
}

/// Mathematical view of a `Span`.
pub struct SpanV {
    pub line: nat,
    pub col: nat,
}

impl View for Span {
    type V = SpanV;

    open spec fn view(&self) -> SpanV {
        SpanV { line: self.line as nat, col: self.col as nat }
    }
}

impl Span {
    pub fn new(line: u32, col: u32) -> (s: Self)
        ensures
            s.line == line,
            s.col == col,
    {
        Self { line, col }
    }
}

/// A lexical category, with the payload of literals, identifiers and
/// keywords.
#[derive(PartialEq, Eq, Debug)]
pub enum TokenKind {
    /// End of input; a sentinel that terminates iteration, never yielded.
    Eof,
    /// A character outside every recognized set; carries the character.
    Illegal(char),
    /// `=`
    Equal,
    /// `+`
    Plus,
    /// `-`
    Minus,
    /// `*`
    Asterisk,
    /// `/`
    Slash,
    /// `.`
    Dot,
    /// `:`
    Colon,
    /// `;`
    Semicolon,
    /// `<`
    Lessthan,
    /// `>`
    Greaterthan,
    /// `[`
    LeftSquareBracket,
    /// `]`
    RightSquareBracket,
    /// `(`
    LeftParent,
    /// `)`
    RightParent,
    /// `"`
    Quotation,
    /// An unsigned number literal.
    Number(usize),
    /// An identifier, e.g. a variable or function name.
    Identifier(String),
    /// One of the reserved words.
    Keyword(Keyword),
}

/// Mathematical view of a `TokenKind`: identifiers as character sequences,
/// numbers as unbounded naturals.
pub enum KindV {
    Eof,
    Illegal(char),
    Equal,
    Plus,
    Minus,
    Asterisk,
    Slash,
    Dot,
    Colon,
    Semicolon,
    Lessthan,
    Greaterthan,
    LeftSquareBracket,
    RightSquareBracket,
    LeftParent,
    RightParent,
    Quotation,
    Number(nat),
    Identifier(Seq<char>),
    Keyword(Keyword),
}

impl View for TokenKind {
    type V = KindV;

    open spec fn view(&self) -> KindV {
        match self {
            TokenKind::Eof => KindV::Eof,
            TokenKind::Illegal(c) => KindV::Illegal(*c),
            TokenKind::Equal => KindV::Equal,
            TokenKind::Plus => KindV::Plus,
            TokenKind::Minus => KindV::Minus,
            TokenKind::Asterisk => KindV::Asterisk,
            TokenKind::Slash => KindV::Slash,
            TokenKind::Dot => KindV::Dot,
            TokenKind::Colon => KindV::Colon,
            TokenKind::Semicolon => KindV::Semicolon,
            TokenKind::Lessthan => KindV::Lessthan,
            TokenKind::Greaterthan => KindV::Greaterthan,
            TokenKind::LeftSquareBracket => KindV::LeftSquareBracket,
            TokenKind::RightSquareBracket => KindV::RightSquareBracket,
            TokenKind::LeftParent => KindV::LeftParent,
            TokenKind::RightParent => KindV::RightParent,
            TokenKind::Quotation => KindV::Quotation,
            TokenKind::Number(n) => KindV::Number(*n as nat),
            TokenKind::Identifier(s) => KindV::Identifier(s@),
            TokenKind::Keyword(k) => KindV::Keyword(*k),
        }
    }
}

/// The fixed punctuation/operator table, with `Illegal` as the total
/// fallthrough.
pub open spec fn char_kind(c: char) -> KindV {
    if c == '=' {
        KindV::Equal
    } else if c == '<' {
        KindV::Lessthan
    } else if c == '>' {
        KindV::Greaterthan
    } else if c == ':' {
        KindV::Colon
    } else if c == ';' {
        KindV::Semicolon
    } else if c == '(' {
        KindV::LeftParent
    } else if c == ')' {
        KindV::RightParent
    } else if c == '[' {
        KindV::LeftSquareBracket
    } else if c == ']' {
        KindV::RightSquareBracket
    } else if c == '.' {
        KindV::Dot
    } else if c == '+' {
        KindV::Plus
    } else if c == '-' {
        KindV::Minus
    } else if c == '*' {
        KindV::Asterisk
    } else if c == '/' {
        KindV::Slash
    } else if c == '"' {
        KindV::Quotation
    } else {
        KindV::Illegal(c)
    }
}

/// The keyword table: a word is a `Keyword` exactly on one of the five fixed
/// spellings, compared case-sensitively; any other word is an `Identifier`
/// with the exact matched text.
pub open spec fn word_kind(w: Seq<char>) -> KindV {
    if w == "let"@ {
        KindV::Keyword(Keyword::Let)
    } else if w == "fn"@ {
        KindV::Keyword(Keyword::Function)
    } else if w == "return"@ {
        KindV::Keyword(Keyword::Return)
    } else if w == "if"@ {
        KindV::Keyword(Keyword::If)
    } else if w == "else"@ {
        KindV::Keyword(Keyword::Else)
    } else {
        KindV::Identifier(w)
    }
}

impl From<char> for TokenKind {
    fn from(value: char) -> (r: Self) {
        if value == '=' {
            Self::Equal
        } else if value == '<' {
            Self::Lessthan
        } else if value == '>' {
            Self::Greaterthan
        } else if value == ':' {
            Self::Colon
        } else if value == ';' {
            Self::Semicolon
        } else if value == '(' {
            Self::LeftParent
        } else if value == ')' {
            Self::RightParent
        } else if value == '[' {
            Self::LeftSquareBracket
        } else if value == ']' {
            Self::RightSquareBracket
        } else if value == '.' {
            Self::Dot
        } else if value == '+' {
            Self::Plus
        } else if value == '-' {
            Self::Minus
        } else if value == '*' {
            Self::Asterisk
        } else if value == '/' {
            Self::Slash
        } else if value == '"' {
            Self::Quotation
        } else {
            Self::Illegal(value)
        }
    }
}

impl vstd::std_specs::convert::FromSpecImpl<char> for TokenKind {
    open spec fn obeys_from_spec() -> bool {
        true
    }

    open spec fn from_spec(value: char) -> Self {
        match char_kind(value) {
            KindV::Equal => Self::Equal,
            KindV::Lessthan => Self::Lessthan,
            KindV::Greaterthan => Self::Greaterthan,
            KindV::Colon => Self::Colon,
            KindV::Semicolon => Self::Semicolon,
            KindV::LeftParent => Self::LeftParent,
            KindV::RightParent => Self::RightParent,
            KindV::LeftSquareBracket => Self::LeftSquareBracket,
            KindV::RightSquareBracket => Self::RightSquareBracket,
            KindV::Dot => Self::Dot,
            KindV::Plus => Self::Plus,
            KindV::Minus => Self::Minus,
            KindV::Asterisk => Self::Asterisk,
            KindV::Slash => Self::Slash,
            KindV::Quotation => Self::Quotation,
            _ => Self::Illegal(value),
        }
    }
}

impl From<String> for TokenKind {
    fn from(value: String) -> (r: Self) {
        if value == String::from_str("let") {
            Self::Keyword(Keyword::Let)
        } else if value == String::from_str("fn") {
            Self::Keyword(Keyword::Function)
        } else if value == String::from_str("return") {
            Self::Keyword(Keyword::Return)
        } else if value == String::from_str("if") {
            Self::Keyword(Keyword::If)
        } else if value == String::from_str("else") {
            Self::Keyword(Keyword::Else)
        } else {
            Self::Identifier(value)
        }
    }
}

impl vstd::std_specs::convert::FromSpecImpl<String> for TokenKind {
    open spec fn obeys_from_spec() -> bool {
        true
    }

    open spec fn from_spec(value: String) -> Self {
        if value@ == "let"@ {
            Self::Keyword(Keyword::Let)
        } else if value@ == "fn"@ {
            Self::Keyword(Keyword::Function)
        } else if value@ == "return"@ {
            Self::Keyword(Keyword::Return)
        } else if value@ == "if"@ {
            Self::Keyword(Keyword::If)
        } else if value@ == "else"@ {
            Self::Keyword(Keyword::Else)
        } else {
            Self::Identifier(value)
        }
    }
}

/// The classification tables agree with their views: converting a character
/// always yields the kind of the fixed table.
pub proof fn lemma_from_char_is_char_kind(c: char)
    ensures
        <TokenKind as vstd::std_specs::convert::FromSpec<char>>::from_spec(c)@ == char_kind(c),
{
}

/// Converting a word always yields the kind of the keyword table applied to
/// the word's characters.
pub proof fn lemma_from_word_is_word_kind(w: String)
    ensures
        <TokenKind as vstd::std_specs::convert::FromSpec<String>>::from_spec(w)@ == word_kind(w@),
{
}

/// A classified minimal lexical unit plus its source position. Immutable
/// once produced.
#[derive(PartialEq, Eq, Debug)]
pub struct Token {
    pub kind: TokenKind,
    pub span: Span,
}

/// Mathematical view of a `Token`.
pub struct TokenV {
    pub kind: KindV,
    pub span: SpanV,
}

impl View for Token {
    type V = TokenV;

    open spec fn view(&self) -> TokenV {
        TokenV { kind: self.kind@, span: self.span@ }
    }
}

/// The views of a sequence of tokens, in order.
pub open spec fn token_views(ts: Seq<Token>) -> Seq<TokenV> {
    Seq::new(ts.len(), |i: int| ts[i]@)
}

impl Token {
    pub fn new(kind: TokenKind, span: Span) -> (t: Self)
        ensures
            t.kind == kind,
            t.span == span,
    {
        Self { kind, span }
    }
}

} // verus!
