//! A tokenizer for TOML, line by line.

use crate::chars::{find_mark, is_text, next_mark, to_chars, to_text};
use crate::tokenizer::{TokenType, Tokenizer};
use std::collections::VecDeque;
use vstd::prelude::*;
use vstd::slice::slice_subrange;

verus! {

/// A token: its text and its kind.
pub struct Token {
    pub text: Seq<char>,
    pub kind: TokenType,
}

/// What a TOML tokenizer has before it: the text, the place in it where the
/// next line starts, the tokens of the last line that are still to come,
/// and the text and the kind of the token that it is at.
pub struct Tokens {
    pub text: Seq<char>,
    pub offset: int,
    pub queue: Seq<Token>,
    pub token: Seq<char>,
    pub kind: Option<TokenType>,
}

/// The character is white space, as Unicode has it.
pub open spec fn is_space(c: char) -> bool {
    let code = c as u32;
    ||| 0x09 <= code <= 0x0d
    ||| code == 0x20
    ||| code == 0x85
    ||| code == 0xa0
    ||| code == 0x1680
    ||| 0x2000 <= code <= 0x200a
    ||| code == 0x2028
    ||| code == 0x2029
    ||| code == 0x202f
    ||| code == 0x205f
    ||| code == 0x3000
}

/// The character is one of the symbols of TOML.
pub open spec fn is_symbol(c: char) -> bool {
    c == '[' || c == ']' || c == ',' || c == '=' || c == '{' || c == '}'
}

/// The text is one of the keywords of TOML.
pub open spec fn is_keyword(text: Seq<char>) -> bool {
    text == "true"@ || text == "false"@
}

/// The text without the white space at its end.
pub open spec fn trimmed_end(text: Seq<char>) -> Seq<char>
    decreases text.len(),
{
    if text.len() > 0 && is_space(text.last()) {
        trimmed_end(text.drop_last())
    } else {
        text
    }
}

/// The text without the white space at its start.
pub open spec fn trimmed_start(text: Seq<char>) -> Seq<char>
    decreases text.len(),
{
    if text.len() > 0 && is_space(text[0]) {
        trimmed_start(text.drop_first())
    } else {
        text
    }
}

/// The text without the white space at its ends.
pub open spec fn trimmed(text: Seq<char>) -> Seq<char> {
    trimmed_start(trimmed_end(text))
}

/// Where the line that starts at `from` ends: after the first line break at
/// or after `from`, or at the end of the text.
pub open spec fn line_end(text: Seq<char>, from: int) -> int
    decreases text.len() - from,
{
    if from < 0 || from + 1 >= text.len() {
        text.len() as int
    } else if text[from] == '\r' && text[from + 1] == '\n' {
        from + 2
    } else {
        line_end(text, from + 1)
    }
}

/// The kind of the token that ends with the character `ch`, which `next`
/// follows, where `word` is what was read since the last token and `quoted`
/// says whether a string is open; nothing where no token ends there.
pub open spec fn kind_at(ch: char, next: char, quoted: bool, word: Seq<char>) -> Option<
    TokenType,
> {
    if ch == '"' {
        if quoted {
            Some(TokenType::StringConstant)
        } else {
            None
        }
    } else if quoted {
        None
    } else if is_symbol(ch) {
        Some(TokenType::Symbol)
    } else if is_keyword(trimmed(word)) {
        Some(TokenType::Keyword)
    } else if next == ' ' || is_symbol(next) {
        Some(TokenType::Value)
    } else {
        None
    }
}

/// Whether a string is open after the character `ch`.
pub open spec fn quoted_after(ch: char, quoted: bool) -> bool {
    if ch == '"' {
        !quoted
    } else {
        quoted
    }
}

/// The character after the place `k` of the text, a blank at its end.
pub open spec fn next_char(part: Seq<char>, k: int) -> char {
    if k + 1 < part.len() {
        part[k + 1]
    } else {
        ' '
    }
}

/// How far the word reaches that is read up to the place `k` of the text,
/// when it reached to `i` before: one place further, and three before a
/// dollar sign, but not beyond the text.
pub open spec fn reach(part: Seq<char>, k: int, i: int) -> int {
    let to = if next_char(part, k) == '$' {
        i + 3
    } else {
        i + 1
    };
    if to <= part.len() {
        to
    } else {
        part.len() as int
    }
}

/// The tokens of the value of a key, from the place `k` on, where the word
/// being read starts at `start` and reaches to `i`.
pub open spec fn scan(part: Seq<char>, k: int, i: int, start: int, quoted: bool) -> Seq<Token>
    decreases part.len() - k,
{
    if k < 0 || k >= part.len() {
        Seq::empty()
    } else {
        let end = reach(part, k, i);
        let word = part.subrange(start, end);
        match kind_at(part[k], next_char(part, k), quoted, word) {
            Some(kind) => seq![Token { text: word, kind }] + scan(
                part,
                k + 1,
                end,
                end,
                quoted_after(part[k], quoted),
            ),
            None => scan(part, k + 1, end, start, quoted_after(part[k], quoted)),
        }
    }
}

/// The tokens of what follows the first equals sign of a line: for each run
/// of characters between equals signs the sign and the tokens of the run.
pub open spec fn values(rest: Seq<char>) -> Seq<Token>
    decreases rest.len(),
{
    let end = next_mark(rest, '=', 0);
    let head = seq![Token { text: "="@, kind: TokenType::Symbol }] + scan(
        rest.take(end),
        0,
        0,
        0,
        false,
    );
    if 0 <= end < rest.len() {
        head + values(rest.skip(end + 1))
    } else {
        head
    }
}

/// The line is a comment.
pub open spec fn is_comment(line: Seq<char>) -> bool {
    line.len() > 0 && line[0] == '#'
}

/// The line is the head of a table.
pub open spec fn is_table(line: Seq<char>) -> bool {
    line.len() > 0 && line[0] == '[' && trimmed(line).len() > 0 && trimmed(line).last() == ']'
}

/// The line gives a key a value.
pub open spec fn is_pair(line: Seq<char>) -> bool {
    !is_comment(line) && !is_table(line) && next_mark(line, '=', 0) < line.len()
}

/// The first token of a line: the line itself as a comment, as the head of
/// a table or as a key, or the key before the first equals sign.
pub open spec fn first_token(line: Seq<char>) -> Token {
    if is_comment(line) {
        Token { text: line, kind: TokenType::Comment }
    } else if is_table(line) {
        Token { text: line, kind: TokenType::Table }
    } else if is_pair(line) {
        Token { text: line.take(next_mark(line, '=', 0)), kind: TokenType::Key }
    } else {
        Token { text: line, kind: TokenType::Key }
    }
}

/// The tokens of a line after its first.
pub open spec fn rest_tokens(line: Seq<char>) -> Seq<Token> {
    if is_pair(line) {
        values(line.skip(next_mark(line, '=', 0) + 1))
    } else {
        Seq::empty()
    }
}

/// The tokens that a queue holds.
pub open spec fn tokens(queue: Seq<(String, TokenType)>) -> Seq<Token> {
    Seq::new(queue.len(), |k: int| Token { text: queue[k].0@, kind: queue[k].1 })
}

/// Is the character white space?
pub fn space(c: char) -> (white: bool)
    ensures
        white == is_space(c),
{
    let code = c as u32;
    (0x09 <= code && code <= 0x0d) || code == 0x20 || code == 0x85 || code == 0xa0 || code
        == 0x1680 || (0x2000 <= code && code <= 0x200a) || code == 0x2028 || code == 0x2029
        || code == 0x202f || code == 0x205f || code == 0x3000
}

/// Is the character one of the symbols of TOML?
pub fn symbol(c: char) -> (found: bool)
    ensures
        found == is_symbol(c),
{
    c == '[' || c == ']' || c == ',' || c == '=' || c == '{' || c == '}'
}

/// The bounds of the text without the white space at its ends.
pub fn trim(text: &[char]) -> (bounds: (usize, usize))
    ensures
        bounds.0 <= bounds.1 <= text@.len(),
        text@.subrange(bounds.0 as int, bounds.1 as int) == trimmed(text@),
{
    let mut end = text.len();
    proof {
        assert(text@.take(end as int) =~= text@);
    }
    while end > 0 && space(text[end - 1])
        invariant
            end <= text@.len(),
            trimmed_end(text@.take(end as int)) == trimmed_end(text@),
        decreases end,
    {
        proof {
            assert(text@.take(end as int).drop_last() =~= text@.take(end - 1));
        }
        end -= 1;
    }
    let mut start: usize = 0;
    proof {
        assert(text@.subrange(0, end as int) =~= text@.take(end as int));
    }
    while start < end && space(text[start])
        invariant
            start <= end <= text@.len(),
            trimmed_start(text@.subrange(start as int, end as int)) == trimmed(text@),
        decreases end - start,
    {
        proof {
            assert(text@.subrange(start as int, end as int).drop_first() =~= text@.subrange(
                start + 1,
                end as int,
            ));
        }
        start += 1;
    }
    (start, end)
}

/// Find where the line that starts at `from` ends.
pub fn find_line_end(text: &[char], from: usize) -> (end: usize)
    requires
        from < text@.len(),
    ensures
        end == line_end(text@, from as int),
        from < end <= text@.len(),
{
    let mut at = from;
    assert(text@.len() == text.len());
    while at + 1 < text.len()
        invariant
            from <= at < text@.len() <= usize::MAX,
            line_end(text@, at as int) == line_end(text@, from as int),
        decreases text.len() - at,
    {
        if text[at] == '\r' && text[at + 1] == '\n' {
            return at + 2;
        }
        at += 1;
    }
    text.len()
}

/// The kind of the first token of a line.
pub fn line_kind(line: &[char]) -> (kind: TokenType)
    requires
        line@.len() > 0,
    ensures
        kind == first_token(line@).kind,
{
    if line[0] == '#' {
        return TokenType::Comment;
    }
    let (from, to) = trim(line);
    proof {
        if from < to {
            assert(trimmed(line@).last() == line@[to - 1]);
        }
    }
    if line[0] == '[' && from < to && line[to - 1] == ']' {
        TokenType::Table
    } else {
        TokenType::Key
    }
}

/// Add the tokens of the value of a key to the queue.
pub fn scan_part(part: &[char], queue: &mut VecDeque<(String, TokenType)>)
    ensures
        tokens(final(queue)@) == tokens(old(queue)@) + scan(part@, 0, 0, 0, false),
{
    let total = part.len();
    let mut k: usize = 0;
    let mut i: usize = 0;
    let mut start: usize = 0;
    let mut quoted = false;
    proof {
        assert(tokens(queue@) + scan(part@, 0, 0, 0, false) =~= tokens(old(queue)@) + scan(
            part@,
            0,
            0,
            0,
            false,
        ));
    }
    while k < total
        invariant
            total == part@.len(),
            k <= total,
            start <= i <= total,
            tokens(queue@) + scan(part@, k as int, i as int, start as int, quoted) == tokens(
                old(queue)@,
            ) + scan(part@, 0, 0, 0, false),
        decreases total - k,
    {
        let ch = part[k];
        let next = if k + 1 < total {
            part[k + 1]
        } else {
            ' '
        };
        let end = if next == '$' {
            if total - i >= 3 {
                i + 3
            } else {
                total
            }
        } else if i < total {
            i + 1
        } else {
            total
        };
        let word = slice_subrange(part, start, end);
        let kind = if ch == '"' {
            if quoted {
                Some(TokenType::StringConstant)
            } else {
                None
            }
        } else if quoted {
            None
        } else if symbol(ch) {
            Some(TokenType::Symbol)
        } else {
            let (from, to) = trim(word);
            let bare = slice_subrange(word, from, to);
            if is_text(bare, "true") || is_text(bare, "false") {
                Some(TokenType::Keyword)
            } else if next == ' ' || symbol(next) {
                Some(TokenType::Value)
            } else {
                None
            }
        };
        let ghost before = tokens(queue@);
        let ghost rest = scan(part@, k as int, i as int, start as int, quoted);
        if ch == '"' {
            quoted = !quoted;
        }
        i = end;
        match kind {
            Some(kind) => {
                queue.push_back((to_text(word), kind));
                start = end;
                proof {
                    let token = Token { text: word@, kind };
                    assert(tokens(queue@) =~= before.push(token));
                    assert(before.push(token) + scan(
                        part@,
                        k + 1,
                        i as int,
                        start as int,
                        quoted,
                    ) =~= before + rest);
                }
            },
            None => {},
        }
        k += 1;
    }
    proof {
        assert(tokens(queue@) + Seq::<Token>::empty() =~= tokens(queue@));
    }
}

/// Add the tokens of what follows the first equals sign of a line to the
/// queue.
pub fn scan_values(rest: &[char], queue: &mut VecDeque<(String, TokenType)>)
    ensures
        tokens(final(queue)@) == tokens(old(queue)@) + values(rest@),
{
    let total = rest.len();
    let mut from: usize = 0;
    proof {
        assert(rest@.skip(0) =~= rest@);
    }
    loop
        invariant_except_break
            tokens(queue@) + values(rest@.skip(from as int)) == tokens(old(queue)@) + values(
                rest@,
            ),
        invariant
            total == rest@.len(),
            from <= total,
        ensures
            tokens(queue@) == tokens(old(queue)@) + values(rest@),
        decreases total - from,
    {
        let left = slice_subrange(rest, from, total);
        let end = find_mark(left, '=', 0);
        let ghost before = tokens(queue@);
        queue.push_back(("=".to_owned(), TokenType::Symbol));
        proof {
            assert(left@ =~= rest@.skip(from as int));
            assert(tokens(queue@) =~= before.push(
                Token { text: "="@, kind: TokenType::Symbol },
            ));
            assert(before.push(Token { text: "="@, kind: TokenType::Symbol }) =~= before
                + seq![Token { text: "="@, kind: TokenType::Symbol }]);
        }
        scan_part(slice_subrange(left, 0, end), queue);
        proof {
            assert(left@.subrange(0, end as int) =~= left@.take(end as int));
        }
        if end < left.len() {
            proof {
                assert(left@.skip(end + 1) =~= rest@.skip(from + end + 1));
                assert(tokens(queue@) + values(rest@.skip(from + end + 1)) =~= before + values(
                    left@,
                ));
            }
            from = from + end + 1;
        } else {
            proof {
                assert(tokens(queue@) =~= before + values(left@));
            }
            break ;
        }
    }
}

/// The longest run of tokens that a value can have is as long as the
/// value.
pub proof fn lemma_scan_len(part: Seq<char>, k: int, i: int, start: int, quoted: bool)
    requires
        0 <= k <= part.len(),
    ensures
        scan(part, k, i, start, quoted).len() <= part.len() - k,
    decreases part.len() - k,
{
    if k < part.len() {
        let end = reach(part, k, i);
        lemma_scan_len(part, k + 1, end, end, quoted_after(part[k], quoted));
        lemma_scan_len(part, k + 1, end, start, quoted_after(part[k], quoted));
    }
}

/// What follows an equals sign has no more tokens than characters, and one.
pub proof fn lemma_values_len(rest: Seq<char>)
    ensures
        values(rest).len() <= rest.len() + 1,
    decreases rest.len(),
{
    let end = next_mark(rest, '=', 0);
    lemma_next_mark(rest, '=', 0);
    lemma_scan_len(rest.take(end), 0, 0, 0, false);
    if 0 <= end < rest.len() {
        lemma_values_len(rest.skip(end + 1));
    }
}

/// The first place of a mark at or after `from` lies between `from` and
/// the end of the text.
pub proof fn lemma_next_mark(text: Seq<char>, mark: char, from: int)
    requires
        0 <= from <= text.len(),
    ensures
        from <= next_mark(text, mark, from) <= text.len(),
    decreases text.len() - from,
{
    if from < text.len() && text[from] != mark {
        lemma_next_mark(text, mark, from + 1);
    }
}

/// Where the line that starts within the text ends: after its start, and
/// within the text or at its end.
pub proof fn lemma_line_end(text: Seq<char>, from: int)
    requires
        0 <= from < text.len(),
    ensures
        from < line_end(text, from) <= text.len(),
    decreases text.len() - from,
{
    if from + 1 < text.len() && !(text[from] == '\r' && text[from + 1] == '\n') {
        lemma_line_end(text, from + 1);
    }
}

/// Each token that `next` gives leaves fewer tokens to give.
pub proof fn lemma_next_less(state: Tokens)
    requires
        state.sound(),
        state.next_kind() is Some,
    ensures
        state.after_next().sound(),
        state.after_next().measure() < state.measure(),
{
    if state.queue.len() == 0 {
        let line = state.line();
        lemma_line_end(state.text, state.offset);
        if is_pair(line) {
            lemma_next_mark(line, '=', 0);
            lemma_values_len(line.skip(next_mark(line, '=', 0) + 1));
        }
    }
}

/// A tokenizer for a text of TOML.
pub struct TokenizerToml<'a> {
    text: &'a str,
    chars: Vec<char>,
    token: String,
    token_type: Option<TokenType>,
    counter: usize,
    offset: usize,
    next_tokens: VecDeque<(String, TokenType)>,
}

impl<'a> View for TokenizerToml<'a> {
    type V = Tokens;

    /// What the tokenizer has before it.
    closed spec fn view(&self) -> Tokens {
        Tokens {
            text: self.chars@,
            offset: if self.offset <= self.chars@.len() {
                self.offset as int
            } else {
                self.chars@.len() as int
            },
            queue: tokens(self.next_tokens@),
            token: self.token@,
            kind: self.token_type,
        }
    }
}

impl Tokens {
    /// What is before a tokenizer at the start of a text.
    pub open spec fn start(text: Seq<char>) -> Tokens {
        Tokens { text, offset: 0, queue: Seq::empty(), token: Seq::empty(), kind: None }
    }

    /// The next line starts within the text or at its end.
    pub open spec fn sound(self) -> bool {
        0 <= self.offset <= self.text.len()
    }

    /// A bound on the number of tokens that are left: two for each
    /// character of the text that is still to be read, and those of the
    /// queue.
    pub open spec fn measure(self) -> nat {
        (2 * (self.text.len() - self.offset) + self.queue.len()) as nat
    }

    /// The tokens that `next` gives one after the other, to the end of the
    /// text.
    pub open spec fn stream(self) -> Seq<Token>
        decreases self.measure(),
        when self.sound()
    {
        match self.next_kind() {
            Some(kind) => {
                proof {
                    lemma_next_less(self);
                }
                seq![Token { text: self.after_next().token, kind }] + self.after_next().stream()
            },
            None => Seq::empty(),
        }
    }

    /// The line that starts where the next line starts.
    pub open spec fn line(self) -> Seq<char> {
        self.text.subrange(self.offset, line_end(self.text, self.offset))
    }

    /// What is before the tokenizer after `next`: the first token of the
    /// queue is taken from it where it has one; the next line is read where
    /// the text has one, its first token taken and the others put into the
    /// queue; and at the end of the text no token is left.
    pub open spec fn after_next(self) -> Tokens {
        if self.queue.len() > 0 {
            Tokens { queue: self.queue.drop_first(), token: self.queue[0].text, ..self }
        } else if self.offset < self.text.len() {
            Tokens {
                offset: line_end(self.text, self.offset),
                queue: rest_tokens(self.line()),
                token: first_token(self.line()).text,
                ..self
            }
        } else {
            Tokens { token: Seq::empty(), ..self }
        }
    }

    /// The kind of the token that `next` goes on to.
    pub open spec fn next_kind(self) -> Option<TokenType> {
        if self.queue.len() > 0 {
            Some(self.queue[0].kind)
        } else if self.offset < self.text.len() {
            Some(first_token(self.line()).kind)
        } else {
            None
        }
    }
}

impl<'a> Tokenizer<'a> for TokenizerToml<'a> {
    /// Two for each character that is still to be read, and the tokens of
    /// the queue.
    open spec fn left(&self) -> nat {
        self@.measure()
    }

    /// The kind of the first token of the queue, or of the first token of
    /// the next line.
    open spec fn upcoming(&self) -> Option<TokenType> {
        self@.next_kind()
    }

    /// A tokenizer at the start of the text.
    fn new(text: &'a str) -> (tokenizer: Self)
        ensures
            tokenizer@ == Tokens::start(text@),
    {
        let tokenizer = TokenizerToml {
            text,
            chars: to_chars(text),
            token: String::new(),
            token_type: None,
            counter: 0,
            offset: 0,
            next_tokens: VecDeque::new(),
        };
        proof {
            assert(tokens(tokenizer.next_tokens@) =~= Seq::<Token>::empty());
        }
        tokenizer
    }

    /// Go on to the next token: the first of the queue, or the first of the
    /// next line, whose other tokens go into the queue.
    fn next(&mut self) -> (kind: Option<TokenType>)
        ensures
            kind == old(self)@.next_kind(),
            final(self)@ == old(self)@.after_next(),
            old(self)@.sound(),
            final(self)@.sound(),
    {
        self.token = String::new();
        if self.next_tokens.len() > 0 {
            let ghost before = self.next_tokens@;
            match self.next_tokens.pop_front() {
                Some((token, kind)) => {
                    self.token = token;
                    proof {
                        assert(tokens(self.next_tokens@) =~= tokens(before).drop_first());
                    }
                    return Some(kind);
                },
                None => {
                    return None;
                },
            }
        }
        proof {
            assert(tokens(self.next_tokens@) =~= Seq::<Token>::empty());
        }
        let total = self.chars.len();
        if self.offset >= total {
            return None;
        }
        let end = find_line_end(self.chars.as_slice(), self.offset);
        let line = slice_subrange(self.chars.as_slice(), self.offset, end);
        let ghost whole = line@;
        let first = find_mark(line, '=', 0);
        proof {
            lemma_values_len(whole.skip(first + 1));
            lemma_next_mark(whole, '=', 0);
            assert(whole == old(self)@.line());
        }
        let kind = line_kind(line);
        if kind == TokenType::Key && first < line.len() {
            self.token = to_text(slice_subrange(line, 0, first));
            scan_values(slice_subrange(line, first + 1, line.len()), &mut self.next_tokens);
            proof {
                assert(whole.subrange(0, first as int) =~= whole.take(first as int));
                assert(whole.subrange(first + 1, whole.len() as int) =~= whole.skip(first + 1));
                assert(tokens(self.next_tokens@) =~= values(whole.skip(first + 1)));
            }
        } else {
            self.token = to_text(line);
        }
        if self.counter < usize::MAX {
            self.counter += 1;
        }
        self.offset = end;
        Some(kind)
    }

    /// The kind of the token that `next` would go on to.
    fn peek(&self) -> (kind: Option<TokenType>) {
        if self.next_tokens.len() > 0 {
            return Some(self.next_tokens[0].1);
        }
        proof {
            assert(tokens(self.next_tokens@) =~= Seq::<Token>::empty());
        }
        if self.offset >= self.chars.len() {
            return None;
        }
        let end = find_line_end(self.chars.as_slice(), self.offset);
        Some(line_kind(slice_subrange(self.chars.as_slice(), self.offset, end)))
    }

    /// The kind that the tokenizer keeps for its token: none is ever kept.
    fn token_type(&self) -> (kind: Option<&TokenType>)
        ensures
            kind is Some <==> self@.kind is Some,
            kind matches Some(found) ==> self@.kind == Some(*found),
    {
        self.token_type.as_ref()
    }

    /// The text of the token that the tokenizer is at.
    fn token(&self) -> (token: &str)
        ensures
            token@ == self@.token,
    {
        self.token.as_str()
    }
}

} // verus!
