//! Tokens of the texts that the editor colours, and what gives them.

use vstd::prelude::*;

verus! {

/// The kind of a token.
#[derive(Debug, Clone, Copy, PartialEq, Eq, Structural)]
pub enum TokenType {
    // rust
    Keyword,
    Symbol,
    Constant,
    Identifier,
    Comment,  // rust, toml
    // toml
    Table,
    Key,
    Value,
    IntConstant,
    StringConstant,
}

/// A tokenizer goes through a text token by token.
pub trait Tokenizer<'a>: Sized {
    /// A bound on the number of tokens that are left.
    spec fn left(&self) -> nat;

    /// The kind of the token that `next` goes on to; nothing at the end of
    /// the text.
    spec fn upcoming(&self) -> Option<TokenType>;

    /// A tokenizer at the start of the text.
    fn new(text: &'a str) -> Self;

    /// Go on to the next token, and give its kind; nothing at the end of
    /// the text.
    fn next(&mut self) -> (kind: Option<TokenType>)
        ensures
            kind == old(self).upcoming(),
            kind is Some ==> final(self).left() < old(self).left(),
    ;

    /// The kind of the token that `next` would go on to.
    fn peek(&self) -> (kind: Option<TokenType>)
        ensures
            kind == self.upcoming(),
    ;

    /// The kind of the token that the tokenizer is at.
    fn token_type(&self) -> Option<&TokenType>;

    /// The text of the token that the tokenizer is at.
    fn token(&self) -> &str;
}

} // verus!
