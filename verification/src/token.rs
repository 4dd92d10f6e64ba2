//! Tokens, the output of the lexer and the input of the parser.

use vstd::prelude::*;

verus! {

/// One lexical unit of the source text.
#[derive(Debug, PartialEq, Eq)]
pub enum Token {
    /// One of the ten reserved words.
    Keyword(String),
    /// A name that is not reserved.
    Identifier(String),
    /// A run of decimal digits, kept as written.
    IntLiteral(String),
    /// An operator of one or two characters.
    Operator(String),
    /// One of `{ } ( ) ; ,`.
    Separator(char),
    /// The end of the input; always the last token of a lexed sequence.
    Eof,
}

/// The mathematical value of a [`Token`]: texts are sequences of characters.
pub enum TokenView {
    Keyword(Seq<char>),
    Identifier(Seq<char>),
    IntLiteral(Seq<char>),
    Operator(Seq<char>),
    Separator(char),
    Eof,
}

impl View for Token {
    type V = TokenView;

    open spec fn view(&self) -> TokenView {
        match self {
            Token::Keyword(s) => TokenView::Keyword(s@),
            Token::Identifier(s) => TokenView::Identifier(s@),
            Token::IntLiteral(s) => TokenView::IntLiteral(s@),
            Token::Operator(s) => TokenView::Operator(s@),
            Token::Separator(c) => TokenView::Separator(*c),
            Token::Eof => TokenView::Eof,
        }
    }
}

impl Clone for Token {
    fn clone(&self) -> (copy: Self)
        ensures
            copy == *self,
    {
        match self {
            Token::Keyword(s) => Token::Keyword(s.clone()),
            Token::Identifier(s) => Token::Identifier(s.clone()),
            Token::IntLiteral(s) => Token::IntLiteral(s.clone()),
            Token::Operator(s) => Token::Operator(s.clone()),
            Token::Separator(c) => Token::Separator(*c),
            Token::Eof => Token::Eof,
        }
    }
}

/// The values of a sequence of tokens, one for one.
pub open spec fn token_views(tokens: Seq<Token>) -> Seq<TokenView> {
    Seq::new(tokens.len(), |i: int| tokens[i]@)
}

} // verus!
