//! The colours of TOML.

use crate::draw::{put, shown, Color, Draw, Shown};
use crate::highlighter::Highlighter;
use crate::tokenizer::{TokenType, Tokenizer};
use crate::tokenizer_toml::{Token, TokenizerToml, Tokens};
use vstd::prelude::*;

verus! {

/// The colours in which TOML is written.
pub struct HighlighterToml {
    table_color: Color,
    key_color: Color,
    value_color: Color,
    string_constant_color: Color,
    int_constant_color: Color,
    symbol_color: Color,
    keyword_color: Color,
    comment_color: Color,
}

/// The colour that TOML's highlighter starts out with for a kind of token.
pub open spec fn toml_color(kind: TokenType) -> Color {
    match kind {
        TokenType::Table => Color::Yellow,
        TokenType::Key => Color::LightBlue,
        TokenType::Value => Color::LightGreen,
        TokenType::IntConstant => Color::LightGreen,
        TokenType::StringConstant => Color::Rgb(200, 84, 60),
        TokenType::Symbol => Color::Reset,
        TokenType::Keyword => Color::Blue,
        TokenType::Comment => Color::White,
        _ => Color::Reset,
    }
}

impl HighlighterToml {
    /// The colour in which the highlighter writes a kind of token.
    pub closed spec fn color_of(&self, kind: TokenType) -> Color {
        match kind {
            TokenType::Table => self.table_color,
            TokenType::Key => self.key_color,
            TokenType::Value => self.value_color,
            TokenType::IntConstant => self.int_constant_color,
            TokenType::StringConstant => self.string_constant_color,
            TokenType::Symbol => self.symbol_color,
            TokenType::Keyword => self.keyword_color,
            TokenType::Comment => self.comment_color,
            _ => Color::Reset,
        }
    }

    /// The steps that write the tokens, each in its colour.
    pub open spec fn painted(&self, tokens: Seq<Token>) -> Seq<Shown> {
        Seq::new(
            tokens.len(),
            |k: int| Shown::WriteColor(tokens[k].text, self.color_of(tokens[k].kind)),
        )
    }

    /// A highlighter with the colours that TOML starts out with.
    fn new() -> (highlighter: HighlighterToml)
        ensures
            forall|kind: TokenType| #[trigger] highlighter.color_of(kind) == toml_color(kind),
    {
        HighlighterToml {
            table_color: Color::Yellow,
            key_color: Color::LightBlue,
            value_color: Color::LightGreen,
            string_constant_color: Color::Rgb(200, 84, 60),
            int_constant_color: Color::LightGreen,
            symbol_color: Color::Reset,
            keyword_color: Color::Blue,
            comment_color: Color::White,
        }
    }

    /// The colour in which the highlighter writes a kind of token.
    fn pick(&self, kind: TokenType) -> (color: Color)
        ensures
            color == self.color_of(kind),
    {
        match kind {
            TokenType::Table => self.table_color,
            TokenType::Key => self.key_color,
            TokenType::Value => self.value_color,
            TokenType::IntConstant => self.int_constant_color,
            TokenType::StringConstant => self.string_constant_color,
            TokenType::Symbol => self.symbol_color,
            TokenType::Keyword => self.keyword_color,
            TokenType::Comment => self.comment_color,
            _ => Color::Reset,
        }
    }
}

impl Default for HighlighterToml {
    /// A highlighter with the colours that TOML starts out with.
    fn default() -> (highlighter: HighlighterToml)
        ensures
            forall|kind: TokenType| #[trigger] highlighter.color_of(kind) == toml_color(kind),
    {
        Self::new()
    }
}

impl Highlighter for HighlighterToml {
    /// The steps that write the tokens of the text, each in the colour of
    /// its kind.
    fn highlight(&self, content: &str) -> (steps: Vec<Draw>)
        ensures
            shown(steps@) == self.painted(Tokens::start(content@).stream()),
    {
        let mut tokenizer = TokenizerToml::new(content);
        let mut steps: Vec<Draw> = Vec::new();
        let ghost all = Tokens::start(content@).stream();
        let ghost mut done: Seq<Token> = Seq::empty();
        proof {
            assert(shown(steps@) =~= self.painted(done));
            assert(done + tokenizer@.stream() =~= all);
        }
        loop
            invariant_except_break
                shown(steps@) == self.painted(done),
                done + tokenizer@.stream() == all,
                tokenizer@.sound(),
            ensures
                shown(steps@) == self.painted(all),
            decreases tokenizer.left(),
        {
            let ghost before = tokenizer@;
            match tokenizer.next() {
                Some(kind) => {
                    let color = self.pick(kind);
                    let text = tokenizer.token().to_owned();
                    let ghost token = Token { text: text@, kind };
                    let ghost drawn = shown(steps@);
                    put(&mut steps, Draw::WriteColor(text, color));
                    proof {
                        assert(before.stream() == seq![token] + tokenizer@.stream());
                        assert(self.painted(done.push(token)) =~= drawn.push(
                            Shown::WriteColor(token.text, color),
                        ));
                        assert(done.push(token) + tokenizer@.stream() =~= all);
                        done = done.push(token);
                    }
                },
                None => {
                    proof {
                        assert(before.stream() =~= Seq::<Token>::empty());
                        assert(done + Seq::<Token>::empty() =~= done);
                    }
                    break ;
                },
            }
        }
        steps
    }
}

} // verus!
