use vstd::prelude::*;

verus! {

/// Why the scanner produced an error token.
#[derive(Debug, Copy, Clone, PartialEq, Eq, Structural)]
pub enum ScanError {
    UnexpectedCharacter,
    UnterminatedString,
}

impl ScanError {
    pub open spec fn message_spec(&self) -> Seq<char> {
        match self {
            ScanError::UnexpectedCharacter => "Unexpected Character"@,
            ScanError::UnterminatedString => "Unterminated string"@,
        }
    }

    /// The message that a diagnostic for this error carries.
    pub fn message(&self) -> (m: &'static str)
        ensures
            m@ == self.message_spec(),
    {
        match self {
            ScanError::UnexpectedCharacter => "Unexpected Character",
            ScanError::UnterminatedString => "Unterminated string",
        }
    }
}

/// The kinds of lexical tokens of the language.
#[derive(Debug, Copy, Clone, PartialEq, Eq, Structural)]
pub enum TokenType {
    // Single character tokens
    Empty,
    LeftParen,
    RightParen,
    LeftBrace,
    RightBrace,
    LeftBracket,
    RightBracket,
    Comma,
    Dot,
    Minus,
    Plus,
    Semicolon,
    Slash,
    Star,
    PlusPlus,
    MinusMinus,
    // One or two character tokens
    Bang,
    BangEqual,
    Equal,
    EqualEqual,
    EqualGreater,
    Greater,
    GreaterEqual,
    Less,
    LessEqual,
    // Literals
    Identifier,
    String,
    Number,
    // Keywords
    And,
    Class,
    Else,
    False,
    Fun,
    For,
    If,
    Nil,
    Or,
    Print,
    Return,
    Super,
    This,
    True,
    Var,
    While,
    Break,
    Continue,
    Switch,
    Case,
    Default,
    Yield,
    Array,
    Len,
    Error(ScanError),
    EOF,
}

impl core::default::Default for TokenType {
    fn default() -> (t: TokenType)
        ensures
            t == TokenType::Empty,
    {
        TokenType::Empty
    }
}

/// A token: its kind, where its lexeme starts in the source (a byte offset),
/// how many bytes the lexeme spans, and the line on which the token ends.
#[derive(Debug, Copy, Clone, PartialEq, Eq, Structural)]
pub struct Token {
    pub token_type: TokenType,
    pub start: usize,
    pub length: usize,
    pub line: usize,
}

impl core::default::Default for Token {
    fn default() -> (t: Token)
        ensures
            t == (Token { token_type: TokenType::Empty, start: 0, length: 0, line: 0 }),
    {
        Token { token_type: TokenType::Empty, start: 0, length: 0, line: 0 }
    }
}

impl Token {
    /// Whether the token is of the given kind.
    pub fn is(&self, token_type: TokenType) -> (r: bool)
        ensures
            r == (self.token_type == token_type),
    {
        self.token_type == token_type
    }
}

} // verus!
