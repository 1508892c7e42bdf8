use nimbus_text_editor::draw::{Color, Draw};
use nimbus_text_editor::highlighter::Highlighter;
use nimbus_text_editor::highlighter_rust::HighlighterRust;
use nimbus_text_editor::highlighter_toml::HighlighterToml;
use nimbus_text_editor::tokenizer::{TokenType, Tokenizer};
use nimbus_text_editor::tokenizer_toml::TokenizerToml;

fn tokens_of(text: &str) -> Vec<(String, TokenType)> {
    let mut tokenizer = TokenizerToml::new(text);
    let mut tokens = Vec::new();
    while let Some(kind) = tokenizer.next() {
        tokens.push((tokenizer.token().to_string(), kind));
    }
    assert_eq!(tokenizer.token(), "");
    assert_eq!(tokenizer.next(), None);
    tokens
}

fn token(text: &str, kind: TokenType) -> (String, TokenType) {
    (text.to_string(), kind)
}

#[test]
fn test_tokenizer_toml() {}

#[test]
fn an_empty_text_has_no_tokens() {
    assert_eq!(tokens_of(""), vec![]);
}

#[test]
fn a_comment_is_one_token() {
    assert_eq!(
        tokens_of("# a = b\r\n"),
        vec![token("# a = b\r\n", TokenType::Comment)]
    );
}

#[test]
fn the_head_of_a_table_is_one_token() {
    assert_eq!(
        tokens_of("[package]\r\n[dependencies] \t"),
        vec![
            token("[package]\r\n", TokenType::Table),
            token("[dependencies] \t", TokenType::Table),
        ]
    );
}

#[test]
fn a_line_without_an_equals_sign_is_a_key() {
    assert_eq!(
        tokens_of("\r\nplain\r\n[open"),
        vec![
            token("\r\n", TokenType::Key),
            token("plain\r\n", TokenType::Key),
            token("[open", TokenType::Key),
        ]
    );
}

#[test]
fn a_string_is_a_value_of_its_own_kind() {
    assert_eq!(
        tokens_of("name = \"nimbus\"\r\n"),
        vec![
            token("name ", TokenType::Key),
            token("=", TokenType::Symbol),
            token(" \"nimbus\"", TokenType::StringConstant),
            token("\r\n", TokenType::Value),
        ]
    );
}

#[test]
fn true_and_false_are_keywords() {
    assert_eq!(
        tokens_of("flag = true\r\nother = false"),
        vec![
            token("flag ", TokenType::Key),
            token("=", TokenType::Symbol),
            token(" true", TokenType::Keyword),
            token("\r\n", TokenType::Value),
            token("other ", TokenType::Key),
            token("=", TokenType::Symbol),
            token(" false", TokenType::Keyword),
        ]
    );
}

#[test]
fn symbols_end_values() {
    assert_eq!(
        tokens_of("list = [1, 2]"),
        vec![
            token("list ", TokenType::Key),
            token("=", TokenType::Symbol),
            token(" ", TokenType::Value),
            token("[", TokenType::Symbol),
            token("1", TokenType::Value),
            token(",", TokenType::Symbol),
            token(" 2", TokenType::Value),
            token("]", TokenType::Symbol),
        ]
    );
}

#[test]
fn each_equals_sign_starts_a_value() {
    assert_eq!(
        tokens_of("a=b=c"),
        vec![
            token("a", TokenType::Key),
            token("=", TokenType::Symbol),
            token("b", TokenType::Value),
            token("=", TokenType::Symbol),
            token("c", TokenType::Value),
        ]
    );
}

#[test]
fn a_dollar_sign_draws_the_word_on() {
    assert_eq!(
        tokens_of("a=x$yz w"),
        vec![
            token("a", TokenType::Key),
            token("=", TokenType::Symbol),
            token("x$yz w", TokenType::Value),
            token("", TokenType::Value),
        ]
    );
}

#[test]
fn peek_tells_the_kind_that_next_gives() {
    let mut tokenizer = TokenizerToml::new("# note\r\n[table]\r\nkey = 1\r\n");
    let mut kinds = Vec::new();
    loop {
        let ahead = tokenizer.peek();
        assert_eq!(tokenizer.peek(), ahead);
        let kind = tokenizer.next();
        assert_eq!(kind, ahead);
        match kind {
            Some(kind) => kinds.push(kind),
            None => break,
        }
    }
    assert_eq!(
        kinds,
        vec![
            TokenType::Comment,
            TokenType::Table,
            TokenType::Key,
            TokenType::Symbol,
            TokenType::Value,
        ]
    );
}

#[test]
fn the_kind_of_the_token_is_never_kept() {
    let mut tokenizer = TokenizerToml::new("a = 1");
    assert_eq!(tokenizer.token_type(), None);
    assert_eq!(tokenizer.next(), Some(TokenType::Key));
    assert_eq!(tokenizer.token(), "a ");
    assert_eq!(tokenizer.token_type(), None);
}

#[test]
fn toml_is_written_in_its_colours() {
    let highlighter = HighlighterToml::default();
    assert_eq!(
        highlighter.highlight("# note\r\n[table]\r\nkey = \"text\" \r\nflag = true,\r\n"),
        vec![
            Draw::WriteColor("# note\r\n".to_string(), Color::White),
            Draw::WriteColor("[table]\r\n".to_string(), Color::Yellow),
            Draw::WriteColor("key ".to_string(), Color::LightBlue),
            Draw::WriteColor("=".to_string(), Color::Reset),
            Draw::WriteColor(" \"text\"".to_string(), Color::Rgb(200, 84, 60)),
            Draw::WriteColor(" \r\n".to_string(), Color::LightGreen),
            Draw::WriteColor("flag ".to_string(), Color::LightBlue),
            Draw::WriteColor("=".to_string(), Color::Reset),
            Draw::WriteColor(" true".to_string(), Color::Blue),
            Draw::WriteColor(",".to_string(), Color::Reset),
            Draw::WriteColor("\r\n".to_string(), Color::LightGreen),
        ]
    );
}

#[test]
fn rust_names_of_types_have_their_own_colour() {
    let highlighter = HighlighterRust::default();
    assert_eq!(highlighter.pick(TokenType::Keyword, "fn"), Color::LightRed);
    assert_eq!(highlighter.pick(TokenType::Constant, "1"), Color::LightGreen);
    assert_eq!(highlighter.pick(TokenType::Identifier, " main"), Color::LightWhite);
    assert_eq!(highlighter.pick(TokenType::Identifier, " String"), Color::LightYellow);
    assert_eq!(highlighter.pick(TokenType::Identifier, "  "), Color::LightWhite);
    assert_eq!(highlighter.pick(TokenType::Symbol, "{"), Color::LightWhite);
    assert_eq!(highlighter.pick(TokenType::Comment, "// x"), Color::White);
    assert_eq!(highlighter.pick(TokenType::Table, "[x]"), Color::Reset);
}
