//! A keyword-grouping token vocabulary, with constructors.
use vstd::prelude::*;

verus! {

/// The keywords of the language.
#[derive(Debug, PartialEq, Clone, Copy)]
pub enum KeywordKind {
    Int,
    Return,
    Void,
}

/// A token in which the keywords form one variant.
#[derive(Debug, Clone, PartialEq)]
pub enum Token<'a> {
    Identifier(&'a str),
    Keyword(KeywordKind),
    OpenParen,
    CloseParen,
    OpenBrace,
    CloseBrace,
    Semicolon,
}

impl<'a> Token<'a> {
    /// The token of a keyword.
    pub fn keyword(kind: KeywordKind) -> (t: Self)
        ensures
            t == Token::<'a>::Keyword(kind),
    {
        Token::Keyword(kind)
    }

    /// The token of an identifier.
    pub fn ident(name: &'a str) -> (t: Self)
        ensures
            t == Token::Identifier(name),
    {
        Token::Identifier(name)
    }
}

} // verus!
