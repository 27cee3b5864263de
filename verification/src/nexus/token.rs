use vstd::prelude::*;

verus! {

/// The keywords of the language.
#[derive(Debug, Clone, Copy, PartialEq, Eq, Structural)]
pub enum Keywords {
    If,
    While,
    Print,
    String,
    Int,
    Boolean,
    True,
    False,
}

/// The symbols of the language.
#[derive(Debug, Clone, Copy, PartialEq, Eq, Structural)]
pub enum Symbols {
    LParen,
    RParen,
    LBrace,
    RBrace,
    AdditionOp,
    EqOp,
    NeqOp,
    AssignmentOp,
    Quote,
    EOP,
}

/// The kind of a token and what it holds.
#[derive(Debug)]
pub enum TokenType {
    Keyword(Keywords),
    Identifier(String),
    Symbol(Symbols),
    Digit(u8),
    Char(String),
    Unrecognized(String),
}

/// The mathematical view of a token kind: strings become character sequences.
pub enum SpecTokenType {
    Keyword(Keywords),
    Identifier(Seq<char>),
    Symbol(Symbols),
    Digit(u8),
    Char(Seq<char>),
    Unrecognized(Seq<char>),
}

impl View for TokenType {
    type V = SpecTokenType;

    open spec fn view(&self) -> SpecTokenType {
        match self {
            TokenType::Keyword(k) => SpecTokenType::Keyword(*k),
            TokenType::Identifier(s) => SpecTokenType::Identifier(s@),
            TokenType::Symbol(s) => SpecTokenType::Symbol(*s),
            TokenType::Digit(d) => SpecTokenType::Digit(*d),
            TokenType::Char(s) => SpecTokenType::Char(s@),
            TokenType::Unrecognized(s) => SpecTokenType::Unrecognized(s@),
        }
    }
}

/// A token: its kind, its text and its (line, column) position in the source.
#[derive(Debug)]
pub struct Token {
    pub token_type: TokenType,
    pub text: String,
    pub position: (usize, usize),
}

/// The mathematical view of a token.
pub struct SpecToken {
    pub token_type: SpecTokenType,
    pub text: Seq<char>,
    pub position: (usize, usize),
}

impl View for Token {
    type V = SpecToken;

    open spec fn view(&self) -> SpecToken {
        SpecToken { token_type: self.token_type@, text: self.text@, position: self.position }
    }
}

impl TokenType {
    /// A copy of this token kind with the same contents.
    pub fn duplicate(&self) -> (r: TokenType)
        ensures
            r@ == self@,
    {
        match self {
            TokenType::Keyword(k) => TokenType::Keyword(*k),
            TokenType::Identifier(s) => TokenType::Identifier(s.clone()),
            TokenType::Symbol(s) => TokenType::Symbol(*s),
            TokenType::Digit(d) => TokenType::Digit(*d),
            TokenType::Char(s) => TokenType::Char(s.clone()),
            TokenType::Unrecognized(s) => TokenType::Unrecognized(s.clone()),
        }
    }

    /// Whether this token kind is the given symbol.
    pub fn is_symbol(&self, sym: Symbols) -> (r: bool)
        ensures
            r == (self@ == SpecTokenType::Symbol(sym)),
    {
        match self {
            TokenType::Symbol(s) => *s == sym,
            _ => false,
        }
    }

    /// Whether this token kind is the given keyword.
    pub fn is_keyword(&self, kw: Keywords) -> (r: bool)
        ensures
            r == (self@ == SpecTokenType::Keyword(kw)),
    {
        match self {
            TokenType::Keyword(k) => *k == kw,
            _ => false,
        }
    }
}

impl Token {
    /// Create a new token with the given kind, text and position.
    pub fn new(token_type_in: TokenType, token_text: String, line_number: usize, col_number: usize) -> (r: Self)
        ensures
            r@ == (SpecToken {
                token_type: token_type_in@,
                text: token_text@,
                position: (line_number, col_number),
            }),
    {
        Token { token_type: token_type_in, text: token_text, position: (line_number, col_number) }
    }

    /// A copy of this token with the same contents.
    pub fn duplicate(&self) -> (r: Token)
        ensures
            r@ == self@,
    {
        Token { token_type: self.token_type.duplicate(), text: self.text.clone(), position: self.position }
    }
}

} // verus!
