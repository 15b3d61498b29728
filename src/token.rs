//! Tokens produced by the lexer.
use vstd::prelude::*;

verus! {

/// The closed set of token kinds.
#[allow(non_camel_case_types)]
#[derive(Debug, Copy, Clone, PartialEq, Eq, Structural)]
pub enum TokenType {
    // Single-character tokens.
    LEFT_PAREN,
    RIGHT_PAREN,
    LEFT_BRACE,
    RIGHT_BRACE,
    COMMA,
    DOT,
    MINUS,
    PLUS,
    SEMICOLON,
    SLASH,
    STAR,
    // One or two character tokens.
    BANG,
    BANG_EQUAL,
    EQUAL,
    EQUAL_EQUAL,
    GREATER,
    GREATER_EQUAL,
    LESS,
    LESS_EQUAL,
    // Literals.
    IDENTIFIER,
    STRING,
    NUMBER,
    // Keywords.
    AND,
    BREAK,
    CLASS,
    ELSE,
    FALSE,
    FUN,
    FOR,
    IF,
    NIL,
    OR,
    PRINT,
    RETURN,
    SUPER,
    THIS,
    TRUE,
    VAR,
    WHILE,
    EOF,
}


/// The mathematical value of a literal or of any runtime value.
pub enum Val {
    Nil,
    Bool(bool),
    Num(int),
    Str(Seq<char>),
    /// A function, named by its slot in the interpreter's function table.
    Fun(nat),
}

/// The literal payload of a token, and the non-function runtime values.
/// Numbers are signed 64-bit integers.
#[derive(Debug)]
pub enum Literal {
    StringLit(String),
    Number(i64),
    True,
    False,
    Nil,
}

impl View for Literal {
    type V = Val;

    open spec fn view(&self) -> Val {
        match self {
            Literal::StringLit(s) => Val::Str(s@),
            Literal::Number(n) => Val::Num(*n as int),
            Literal::True => Val::Bool(true),
            Literal::False => Val::Bool(false),
            Literal::Nil => Val::Nil,
        }
    }
}

impl Literal {
    /// A copy holding the same value.
    pub fn duplicate(&self) -> (r: Literal)
        ensures
            r == *self,
    {
        match self {
            Literal::StringLit(s) => Literal::StringLit(s.clone()),
            Literal::Number(n) => Literal::Number(*n),
            Literal::True => Literal::True,
            Literal::False => Literal::False,
            Literal::Nil => Literal::Nil,
        }
    }

    /// Structural equality: same kind and same payload.
    pub fn eq(&self, other: &Literal) -> (r: bool)
        ensures
            r == (self@ == other@),
    {
        match (self, other) {
            (Literal::Nil, Literal::Nil) => true,
            (Literal::True, Literal::True) => true,
            (Literal::False, Literal::False) => true,
            (Literal::Number(a), Literal::Number(b)) => *a == *b,
            (Literal::StringLit(a), Literal::StringLit(b)) => a.eq(b),
            _ => false,
        }
    }
}

/// The mathematical content of a [`Token`].
pub struct TokV {
    pub kind: TokenType,
    pub text: Seq<char>,
    pub lit: Val,
    pub line: u32,
}

/// A classified lexical unit.
#[derive(Debug)]
pub struct Token {
    pub token_type: TokenType,
    pub lexeme: String,
    pub literal: Literal,
    pub line: u32,
}

impl View for Token {
    type V = TokV;

    open spec fn view(&self) -> TokV {
        TokV { kind: self.token_type, text: self.lexeme@, lit: self.literal@, line: self.line }
    }
}

impl Token {
    /// A copy holding the same kind, text, payload and line.
    pub fn duplicate(&self) -> (r: Token)
        ensures
            r == *self,
    {
        Token {
            token_type: self.token_type,
            lexeme: self.lexeme.clone(),
            literal: self.literal.duplicate(),
            line: self.line,
        }
    }

    /// Whether the token's kind is one of `types`.
    pub fn in_types(&self, types: Vec<TokenType>) -> (r: bool)
        ensures
            r == types@.contains(self.token_type),
    {
        let mut i: usize = 0;
        while i < types.len()
            invariant
                0 <= i <= types@.len(),
                forall|j: int| 0 <= j < i ==> types@[j] != self.token_type,
            decreases types@.len() - i,
        {
            if types[i] == self.token_type {
                return true;
            }
            i = i + 1;
        }
        false
    }
}

} // verus!
