//! Tokens: classified, line-tagged lexical units produced by the scanner and
//! consumed read-only by the parser.
use crate::ast::{val_wf, Literal, ValV};
use vstd::prelude::*;

verus! {

/// The lexical categories: punctuation, one- and two-character operators,
/// literals, identifiers, the keywords, and the end-of-input sentinel.
#[derive(Clone, Copy, Debug, PartialEq, Eq, Structural)]
pub enum TokenType {
    LeftParen,
    RightParen,
    LeftBrace,
    RightBrace,
    Comma,
    Dot,
    Minus,
    Plus,
    Semicolon,
    Slash,
    Star,
    Bang,
    BangEqual,
    Equal,
    EqualEqual,
    Greater,
    GreaterEqual,
    Less,
    LessEqual,
    Identifier,
    Str,
    Number,
    And,
    Class,
    Else,
    False,
    Fun,
    For,
    If,
    Nil,
    Or,
    Print,
    Return,
    Super,
    This,
    True,
    Var,
    While,
    Eof,
}

/// An immutable token: its category, the exact source substring it spans,
/// the literal value for number and string tokens, and the 1-based source
/// line it starts on (for string tokens, the line it ends on), kept for
/// diagnostics.
#[derive(Debug)]
pub struct Token {
    pub token_type: TokenType,
    pub lexeme: String,
    pub literal: Option<Literal>,
    pub line: usize,
}

impl Clone for Token {
    /// Clones preserve the token exactly.
    fn clone(&self) -> (r: Token)
        ensures
            r == *self,
    {
        Token {
            token_type: self.token_type,
            lexeme: self.lexeme.clone(),
            literal: match &self.literal {
                Some(l) => Some(l.clone()),
                None => None,
            },
            line: self.line,
        }
    }
}

/// The mathematical shadow of a token: the same data with text as character
/// sequences and the literal value in the abstract value domain.
pub ghost struct TokenV {
    pub token_type: TokenType,
    pub lexeme: Seq<char>,
    pub literal: Option<ValV>,
    pub line: int,
}

impl View for Token {
    type V = TokenV;

    open spec fn view(&self) -> TokenV {
        TokenV {
            token_type: self.token_type,
            lexeme: self.lexeme@,
            literal: match self.literal {
                Some(l) => Some(l@),
                None => None,
            },
            line: self.line as int,
        }
    }
}

/// A token carries a literal value exactly when its category is Number or
/// Str, matching in kind, and any number value lies in the representable
/// range.
pub open spec fn tv_wf(t: TokenV) -> bool {
    match t.literal {
        Some(v) => {
            &&& val_wf(v)
            &&& (v is Num <==> t.token_type == TokenType::Number)
            &&& (v is Str <==> t.token_type == TokenType::Str)
            &&& (v is Num || v is Str)
        },
        None => t.token_type != TokenType::Number && t.token_type != TokenType::Str,
    }
}

/// Executable-side well-formedness: the shadow is well formed and a number
/// literal's representation satisfies its invariant.
pub open spec fn token_wf(t: Token) -> bool {
    &&& tv_wf(t@)
    &&& (t.literal matches Some(l) ==> crate::ast::lit_wf(l))
}

impl Token {
    pub fn new(token_type: TokenType, lexeme: String, literal: Option<Literal>, line: usize) -> (t:
        Token)
        ensures
            t@ == (TokenV {
                token_type,
                lexeme: lexeme@,
                literal: match literal {
                    Some(l) => Some(l@),
                    None => None,
                },
                line: line as int,
            }),
            t.token_type == token_type,
            t.literal == literal,
    {
        Token { token_type, lexeme, literal, line }
    }
}

} // verus!
