//! The kinds of lexical unit and the token record.
use vstd::prelude::*;

verus! {

/// The closed set of lexical categories.
///
/// `Keyword`, `Assignment` and the bracket kinds belong to the language but
/// no template of the lexer recognises them yet.
#[derive(Clone, Copy, PartialEq, Eq, Structural, Hash, Debug)]
pub enum TokenType {
    Whitespace,
    LineComment,
    BlockComment,
    StringLiteral,
    Identifier,
    Keyword,
    Number,
    HexNumber,
    Operator,
    Assignment,
    EndStatement,
    OpenPar,
    ClosePar,
    OpenCurl,
    CloseCurl,
    OpenSq,
    CloseSq,
}

/// One classified span of source text: its kind and the exact characters.
#[derive(Clone, PartialEq, Eq, Debug)]
pub struct Token {
    lexeme: String,
    token_type: TokenType,
}

impl View for Token {
    type V = (TokenType, Seq<char>);

    closed spec fn view(&self) -> (TokenType, Seq<char>) {
        (self.token_type, self.lexeme@)
    }
}

impl Token {
    pub fn new(lexeme: String, token_type: TokenType) -> (r: Token)
        ensures
            r@ == (token_type, lexeme@),
    {
        Token { lexeme: lexeme, token_type: token_type }
    }

    /// The characters that this token covers.
    pub fn lexeme(&self) -> (r: &str)
        ensures
            r@ == self@.1,
    {
        self.lexeme.as_str()
    }

    /// The category of this token.
    pub fn token_type(&self) -> (r: TokenType)
        ensures
            r == self@.0,
    {
        self.token_type
    }
}

} // verus!
