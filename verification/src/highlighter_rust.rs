//! The colours of Rust.

use crate::draw::Color;
use crate::tokenizer::TokenType;
use crate::tokenizer_toml::{space, trimmed_start};
use vstd::prelude::*;

verus! {

/// The colours in which Rust is written.
pub struct HighlighterRust {
    keyword_color: Color,
    constant_color: Color,
    identifier_color: Color,
    type_color: Color,
    symbol_color: Color,
    comment_color: Color,
}

/// The character is an upper case letter, as `char::is_uppercase` has it.
pub uninterp spec fn is_upper(c: char) -> bool;

/// Is the character an upper case letter? By `char::is_uppercase`.
/// Believed, not proved: the answer depends on the character alone.
#[verifier::external_body]
fn upper(c: char) -> (found: bool)
    ensures
        found == is_upper(c),
{
    c.is_uppercase()
}

/// The token names a type: it starts, after white space, with an upper case
/// letter.
pub open spec fn names_type(token: Seq<char>) -> bool {
    trimmed_start(token).len() > 0 && is_upper(trimmed_start(token)[0])
}

/// The colour that Rust's highlighter starts out with for a token.
pub open spec fn rust_color(kind: TokenType, token: Seq<char>) -> Color {
    match kind {
        TokenType::Keyword => Color::LightRed,
        TokenType::Constant => Color::LightGreen,
        TokenType::Identifier => if names_type(token) {
            Color::LightYellow
        } else {
            Color::LightWhite
        },
        TokenType::Symbol => Color::LightWhite,
        TokenType::Comment => Color::White,
        _ => Color::Reset,
    }
}

/// Does the token name a type?
pub fn is_type_name(token: &[char]) -> (found: bool)
    ensures
        found == names_type(token@),
{
    let mut start: usize = 0;
    proof {
        assert(token@.skip(0) =~= token@);
    }
    while start < token.len() && space(token[start])
        invariant
            start <= token@.len(),
            trimmed_start(token@.skip(start as int)) == trimmed_start(token@),
        decreases token.len() - start,
    {
        proof {
            assert(token@.skip(start as int).drop_first() =~= token@.skip(start + 1));
        }
        start += 1;
    }
    if start < token.len() {
        upper(token[start])
    } else {
        false
    }
}

impl HighlighterRust {
    /// The colour in which the highlighter writes a token.
    pub closed spec fn color_of(&self, kind: TokenType, token: Seq<char>) -> Color {
        match kind {
            TokenType::Keyword => self.keyword_color,
            TokenType::Constant => self.constant_color,
            TokenType::Identifier => if names_type(token) {
                self.type_color
            } else {
                self.identifier_color
            },
            TokenType::Symbol => self.symbol_color,
            TokenType::Comment => self.comment_color,
            _ => Color::Reset,
        }
    }

    /// A highlighter with the colours that Rust starts out with.
    fn new() -> (highlighter: HighlighterRust)
        ensures
            forall|kind: TokenType, token: Seq<char>| #[trigger]
                highlighter.color_of(kind, token) == rust_color(kind, token),
    {
        HighlighterRust {
            keyword_color: Color::LightRed,
            constant_color: Color::LightGreen,
            identifier_color: Color::LightWhite,
            type_color: Color::LightYellow,
            symbol_color: Color::LightWhite,
            comment_color: Color::White,
        }
    }

    /// The colour in which the highlighter writes a token of the given
    /// kind: a name is written as the name of a type where it starts with
    /// an upper case letter.
    pub fn pick(&self, kind: TokenType, token: &str) -> (color: Color)
        ensures
            color == self.color_of(kind, token@),
    {
        match kind {
            TokenType::Keyword => self.keyword_color,
            TokenType::Constant => self.constant_color,
            TokenType::Identifier => {
                let chars = crate::chars::to_chars(token);
                if is_type_name(chars.as_slice()) {
                    self.type_color
                } else {
                    self.identifier_color
                }
            },
            TokenType::Symbol => self.symbol_color,
            TokenType::Comment => self.comment_color,
            _ => Color::Reset,
        }
    }
}

impl Default for HighlighterRust {
    /// A highlighter with the colours that Rust starts out with.
    fn default() -> (highlighter: HighlighterRust)
        ensures
            forall|kind: TokenType, token: Seq<char>| #[trigger]
                highlighter.color_of(kind, token) == rust_color(kind, token),
    {
        Self::new()
    }
}

} // verus!
