//! Splits a query into tokens.
use vstd::prelude::*;
use crate::error::{char_span, LintError, LintErrorView, LintResult, Position, Span};
use crate::text::{
    ascii, ascii_digit, char_alphabetic, char_control, char_numeric, char_whitespace, is_alphabetic,
    is_ascii, is_ascii_digit, is_control, is_numeric, is_whitespace, owned, push_char, str_eq,
    string_of_char, eq_lit, concat3, push_str,
};
use crate::number::{decimal, parse_u32, parse_u32_chars, push_decimal};

verus! {

#[derive(Clone, Debug, PartialEq)]
pub enum TokenType {
    Word(String),
    QuotedString(String),
    Number(String),
    And,
    Or,
    Not,
    LeftParen,
    RightParen,
    LeftBracket,
    RightBracket,
    LeftBrace,
    RightBrace,
    Tilde,
    Colon,
    Question,
    Asterisk,
    To,
    Near(u32),
    NearForward(u32),
    CommentStart,
    CommentEnd,
    Field(String),
    Hashtag(String),
    Mention(String),
    Whitespace,
    Eof,
}

pub enum TokenTypeView {
    Word(Seq<char>),
    QuotedString(Seq<char>),
    Number(Seq<char>),
    And,
    Or,
    Not,
    LeftParen,
    RightParen,
    LeftBracket,
    RightBracket,
    LeftBrace,
    RightBrace,
    Tilde,
    Colon,
    Question,
    Asterisk,
    To,
    Near(u32),
    NearForward(u32),
    CommentStart,
    CommentEnd,
    Field(Seq<char>),
    Hashtag(Seq<char>),
    Mention(Seq<char>),
    Whitespace,
    Eof,
}

impl View for TokenType {
    type V = TokenTypeView;

    open spec fn view(&self) -> TokenTypeView {
        match self {
            TokenType::Word(s) => TokenTypeView::Word(s@),
            TokenType::QuotedString(s) => TokenTypeView::QuotedString(s@),
            TokenType::Number(s) => TokenTypeView::Number(s@),
            TokenType::And => TokenTypeView::And,
            TokenType::Or => TokenTypeView::Or,
            TokenType::Not => TokenTypeView::Not,
            TokenType::LeftParen => TokenTypeView::LeftParen,
            TokenType::RightParen => TokenTypeView::RightParen,
            TokenType::LeftBracket => TokenTypeView::LeftBracket,
            TokenType::RightBracket => TokenTypeView::RightBracket,
            TokenType::LeftBrace => TokenTypeView::LeftBrace,
            TokenType::RightBrace => TokenTypeView::RightBrace,
            TokenType::Tilde => TokenTypeView::Tilde,
            TokenType::Colon => TokenTypeView::Colon,
            TokenType::Question => TokenTypeView::Question,
            TokenType::Asterisk => TokenTypeView::Asterisk,
            TokenType::To => TokenTypeView::To,
            TokenType::Near(n) => TokenTypeView::Near(*n),
            TokenType::NearForward(n) => TokenTypeView::NearForward(*n),
            TokenType::CommentStart => TokenTypeView::CommentStart,
            TokenType::CommentEnd => TokenTypeView::CommentEnd,
            TokenType::Field(s) => TokenTypeView::Field(s@),
            TokenType::Hashtag(s) => TokenTypeView::Hashtag(s@),
            TokenType::Mention(s) => TokenTypeView::Mention(s@),
            TokenType::Whitespace => TokenTypeView::Whitespace,
            TokenType::Eof => TokenTypeView::Eof,
        }
    }
}

/// How a token kind is named in messages.
pub open spec fn token_text(k: TokenTypeView) -> Seq<char> {
    match k {
        TokenTypeView::Word(w) => "word '"@ + w + "'"@,
        TokenTypeView::QuotedString(w) => "quoted string '"@ + w + "'"@,
        TokenTypeView::Number(w) => "number '"@ + w + "'"@,
        TokenTypeView::And => "AND"@,
        TokenTypeView::Or => "OR"@,
        TokenTypeView::Not => "NOT"@,
        TokenTypeView::LeftParen => "("@,
        TokenTypeView::RightParen => ")"@,
        TokenTypeView::LeftBracket => "["@,
        TokenTypeView::RightBracket => "]"@,
        TokenTypeView::LeftBrace => "{"@,
        TokenTypeView::RightBrace => "}"@,
        TokenTypeView::Tilde => "~"@,
        TokenTypeView::Colon => ":"@,
        TokenTypeView::Question => "?"@,
        TokenTypeView::Asterisk => "*"@,
        TokenTypeView::To => "TO"@,
        TokenTypeView::Near(n) => "NEAR/"@ + decimal(n as nat),
        TokenTypeView::NearForward(n) => "NEAR/"@ + decimal(n as nat) + "f"@,
        TokenTypeView::CommentStart => "<<<"@,
        TokenTypeView::CommentEnd => ">>>"@,
        TokenTypeView::Field(w) => "field '"@ + w + "'"@,
        TokenTypeView::Hashtag(w) => "hashtag '"@ + w + "'"@,
        TokenTypeView::Mention(w) => "mention '"@ + w + "'"@,
        TokenTypeView::Whitespace => "whitespace"@,
        TokenTypeView::Eof => "end of file"@,
    }
}

/// The variant of a token kind, without its contents.
pub open spec fn kind_tag(k: TokenTypeView) -> int {
    match k {
        TokenTypeView::Word(_) => 0,
        TokenTypeView::QuotedString(_) => 1,
        TokenTypeView::Number(_) => 2,
        TokenTypeView::And => 3,
        TokenTypeView::Or => 4,
        TokenTypeView::Not => 5,
        TokenTypeView::LeftParen => 6,
        TokenTypeView::RightParen => 7,
        TokenTypeView::LeftBracket => 8,
        TokenTypeView::RightBracket => 9,
        TokenTypeView::LeftBrace => 10,
        TokenTypeView::RightBrace => 11,
        TokenTypeView::Tilde => 12,
        TokenTypeView::Colon => 13,
        TokenTypeView::Question => 14,
        TokenTypeView::Asterisk => 15,
        TokenTypeView::To => 16,
        TokenTypeView::Near(_) => 17,
        TokenTypeView::NearForward(_) => 18,
        TokenTypeView::CommentStart => 19,
        TokenTypeView::CommentEnd => 20,
        TokenTypeView::Field(_) => 21,
        TokenTypeView::Hashtag(_) => 22,
        TokenTypeView::Mention(_) => 23,
        TokenTypeView::Whitespace => 24,
        TokenTypeView::Eof => 25,
    }
}

impl TokenType {
    /// How the token kind is named in messages.
    pub fn describe(&self) -> (r: String)
        ensures
            r@ == token_text(self@),
    {
        match self {
            TokenType::Word(w) => concat3("word '", w.as_str(), "'"),
            TokenType::QuotedString(w) => concat3("quoted string '", w.as_str(), "'"),
            TokenType::Number(w) => concat3("number '", w.as_str(), "'"),
            TokenType::And => owned("AND"),
            TokenType::Or => owned("OR"),
            TokenType::Not => owned("NOT"),
            TokenType::LeftParen => owned("("),
            TokenType::RightParen => owned(")"),
            TokenType::LeftBracket => owned("["),
            TokenType::RightBracket => owned("]"),
            TokenType::LeftBrace => owned("{"),
            TokenType::RightBrace => owned("}"),
            TokenType::Tilde => owned("~"),
            TokenType::Colon => owned(":"),
            TokenType::Question => owned("?"),
            TokenType::Asterisk => owned("*"),
            TokenType::To => owned("TO"),
            TokenType::Near(n) => {
                let mut s = owned("NEAR/");
                push_decimal(&mut s, *n as u64);
                s
            },
            TokenType::NearForward(n) => {
                let mut s = owned("NEAR/");
                push_decimal(&mut s, *n as u64);
                push_str(&mut s, "f");
                s
            },
            TokenType::CommentStart => owned("<<<"),
            TokenType::CommentEnd => owned(">>>"),
            TokenType::Field(w) => concat3("field '", w.as_str(), "'"),
            TokenType::Hashtag(w) => concat3("hashtag '", w.as_str(), "'"),
            TokenType::Mention(w) => concat3("mention '", w.as_str(), "'"),
            TokenType::Whitespace => owned("whitespace"),
            TokenType::Eof => owned("end of file"),
        }
    }

    /// The variant of the token kind, without its contents.
    pub fn tag(&self) -> (r: u8)
        ensures
            r as int == kind_tag(self@),
    {
        match self {
            TokenType::Word(_) => 0,
            TokenType::QuotedString(_) => 1,
            TokenType::Number(_) => 2,
            TokenType::And => 3,
            TokenType::Or => 4,
            TokenType::Not => 5,
            TokenType::LeftParen => 6,
            TokenType::RightParen => 7,
            TokenType::LeftBracket => 8,
            TokenType::RightBracket => 9,
            TokenType::LeftBrace => 10,
            TokenType::RightBrace => 11,
            TokenType::Tilde => 12,
            TokenType::Colon => 13,
            TokenType::Question => 14,
            TokenType::Asterisk => 15,
            TokenType::To => 16,
            TokenType::Near(_) => 17,
            TokenType::NearForward(_) => 18,
            TokenType::CommentStart => 19,
            TokenType::CommentEnd => 20,
            TokenType::Field(_) => 21,
            TokenType::Hashtag(_) => 22,
            TokenType::Mention(_) => 23,
            TokenType::Whitespace => 24,
            TokenType::Eof => 25,
        }
    }
}

/// A token with its place in the query and the text it was read from.
#[derive(Clone, Debug, PartialEq)]
pub struct Token {
    pub token_type: TokenType,
    pub span: Span,
    pub raw: String,
}

pub struct TokenView {
    pub kind: TokenTypeView,
    pub span: Span,
    pub raw: Seq<char>,
}

impl View for Token {
    type V = TokenView;

    open spec fn view(&self) -> TokenView {
        TokenView { kind: self.token_type@, span: self.span, raw: self.raw@ }
    }
}

impl Token {
    pub fn new(token_type: TokenType, span: Span, raw: String) -> (r: Self)
        ensures
            r@ == (TokenView { kind: token_type@, span, raw: raw@ }),
    {
        Token { token_type, span, raw }
    }
}

// ---------------------------------------------------------------------------
// The token rules, over the characters of the query.
// ---------------------------------------------------------------------------

/// Where the lexer stands: the offset of the next character, its line and column,
/// and whether the lexer is inside a `<<< >>>` comment.
pub struct LexState {
    pub pos: usize,
    pub line: usize,
    pub col: usize,
    pub in_comment: bool,
}

pub open spec fn position_of(st: LexState) -> Position {
    Position { line: st.line, column: st.col, offset: st.pos }
}

/// Moves over `n` characters on the current line.
pub open spec fn cols(st: LexState, n: int) -> LexState {
    LexState { pos: (st.pos + n) as usize, col: (st.col + n) as usize, ..st }
}

/// Moves over the character `c`, starting a new line after a line feed.
pub open spec fn step(st: LexState, c: char) -> LexState {
    if c == '\n' {
        LexState { pos: (st.pos + 1) as usize, line: (st.line + 1) as usize, col: 1, ..st }
    } else {
        cols(st, 1)
    }
}

/// Moves over the characters of `input` from `st.pos` up to `end`.
pub open spec fn track(input: Seq<char>, st: LexState, end: int) -> LexState
    decreases end - st.pos,
{
    if st.pos < end && end <= input.len() {
        step(track(input, st, end - 1), input[end - 1])
    } else {
        st
    }
}

/// The characters that can make up a word.
pub open spec fn word_char(c: char) -> bool {
    ||| char_alphabetic(c)
    ||| char_numeric(c)
    ||| c == '_' || c == '.' || c == '-' || c == '/' || c == '*' || c == '?' || c == '$'
    ||| c == '&' || c == '#' || c == '+' || c == '%' || c == '=' || c == '`' || c == '|'
    ||| c == '@' || c == '\'' || c == ';'
    ||| (!ascii(c) && !char_control(c) && !reserved_char(c))
}

/// The characters with a meaning of their own in the query syntax.
pub open spec fn reserved_char(c: char) -> bool {
    c == '(' || c == ')' || c == '[' || c == ']' || c == '{' || c == '}' || c == ':' || c == '~'
        || c == '"' || c == '<' || c == '>'
}

/// The characters that end a run of word characters.
pub open spec fn boundary_char(c: char) -> bool {
    char_whitespace(c) || c == '(' || c == ')' || c == '[' || c == ']' || c == '{' || c == '}'
        || c == ':' || c == '~' || c == '"' || c == '#' || c == '@' || c == '<' || c == '>'
}

/// The characters that may follow the distance of a `~` operator.
pub open spec fn tilde_follow_char(c: char) -> bool {
    c == '(' || c == ')' || c == '[' || c == ']' || c == ':' || c == '~' || c == '"' || c == '#'
        || c == '@' || c == '<' || c == '>'
}

/// The up to `n` characters that follow offset `pos`.
pub open spec fn peek_seq(input: Seq<char>, pos: int, n: int) -> Seq<char> {
    let a = if pos + 1 < input.len() { pos + 1 } else { input.len() as int };
    let b = if pos + 1 + n < input.len() { pos + 1 + n } else { input.len() as int };
    input.subrange(a, b)
}

/// The end of the run of word characters that starts at `p`.
pub open spec fn word_end(input: Seq<char>, p: int) -> int
    decreases input.len() - p,
{
    if 0 <= p < input.len() && word_char(input[p]) {
        word_end(input, p + 1)
    } else {
        p
    }
}

/// The end of the run of ASCII digits that starts at `p`.
pub open spec fn digits_end(input: Seq<char>, p: int) -> int
    decreases input.len() - p,
{
    if 0 <= p < input.len() && ascii_digit(input[p]) {
        digits_end(input, p + 1)
    } else {
        p
    }
}

/// The end of the run of ASCII digits and dots that starts at `p`.
pub open spec fn number_end(input: Seq<char>, p: int) -> int
    decreases input.len() - p,
{
    if 0 <= p < input.len() && (ascii_digit(input[p]) || input[p] == '.') {
        number_end(input, p + 1)
    } else {
        p
    }
}

/// The offset of the first `"` at or after `p`, or the length of the input.
pub open spec fn quote_end(input: Seq<char>, p: int) -> int
    decreases input.len() - p,
{
    if 0 <= p < input.len() && input[p] != '"' {
        quote_end(input, p + 1)
    } else {
        p
    }
}

/// Whether a letter, a wildcard, `_` or `-` comes before any boundary from `p` on.
pub open spec fn letters_from(input: Seq<char>, p: int) -> bool
    decreases input.len() - p,
{
    if 0 <= p < input.len() {
        let c = input[p];
        if char_alphabetic(c) || c == '*' || c == '?' || c == '_' || c == '-' {
            true
        } else if boundary_char(c) {
            false
        } else if word_char(c) {
            letters_from(input, p + 1)
        } else {
            false
        }
    } else {
        false
    }
}

/// Whether the number-like text at `p` (a `-`, then digits) goes on into a word.
pub open spec fn word_chars_ahead(input: Seq<char>, p: int) -> bool {
    let q = if p < input.len() && input[p] == '-' { p + 1 } else { p };
    letters_from(input, digits_end(input, q))
}

/// The token type of a run of word characters.
pub open spec fn word_kind(value: Seq<char>) -> TokenTypeView {
    if value == "AND"@ {
        TokenTypeView::And
    } else if value == "OR"@ {
        TokenTypeView::Or
    } else if value == "NOT"@ {
        TokenTypeView::Not
    } else if value == "TO"@ {
        TokenTypeView::To
    } else if value.len() >= 5 && value.take(5) == "NEAR/"@ {
        let stripped = value.skip(5);
        if value.last() == 'f' && value.len() > 6 {
            match parse_u32(stripped.drop_last()) {
                Some(d) => TokenTypeView::NearForward(d),
                None => TokenTypeView::Word(value),
            }
        } else if value.len() > 5 {
            match parse_u32(stripped) {
                Some(d) => TokenTypeView::Near(d),
                None => TokenTypeView::Word(value),
            }
        } else {
            TokenTypeView::Word(value)
        }
    } else {
        TokenTypeView::Word(value)
    }
}

pub proof fn lemma_word_end(input: Seq<char>, p: int)
    requires
        0 <= p <= input.len(),
    ensures
        p <= word_end(input, p) <= input.len(),
        p < input.len() && word_char(input[p]) ==> word_end(input, p) > p,
    decreases input.len() - p,
{
    if p < input.len() && word_char(input[p]) {
        lemma_word_end(input, p + 1);
    }
}

pub proof fn lemma_number_end(input: Seq<char>, p: int)
    requires
        0 <= p <= input.len(),
    ensures
        p <= number_end(input, p) <= input.len(),
        p < input.len() && (ascii_digit(input[p]) || input[p] == '.') ==> number_end(input, p) > p,
    decreases input.len() - p,
{
    if 0 <= p < input.len() && (ascii_digit(input[p]) || input[p] == '.') {
        lemma_number_end(input, p + 1);
    }
}

pub proof fn lemma_quote_end(input: Seq<char>, p: int)
    requires
        0 <= p <= input.len(),
    ensures
        p <= quote_end(input, p) <= input.len(),
        quote_end(input, p) < input.len() ==> input[quote_end(input, p)] == '"',
    decreases input.len() - p,
{
    if p < input.len() && input[p] != '"' {
        lemma_quote_end(input, p + 1);
    }
}

pub proof fn lemma_track_pos(input: Seq<char>, st: LexState, end: int)
    requires
        st.pos <= end <= input.len(),
        end <= usize::MAX,
    ensures
        track(input, st, end).pos == end,
    decreases end - st.pos,
{
    if st.pos < end {
        lemma_track_pos(input, st, end - 1);
    }
}

pub type LexOutcome = (LexState, Result<Option<TokenView>, LintErrorView>);

pub open spec fn emit(st: LexState, start: LexState, kind: TokenTypeView, raw: Seq<char>) -> LexOutcome {
    (st, Ok(Some(TokenView { kind, span: Span { start: position_of(start), end: position_of(st) }, raw })))
}

pub open spec fn lex_word(input: Seq<char>, st: LexState) -> LexOutcome {
    let e = word_end(input, st.pos as int);
    let value = input.subrange(st.pos as int, e);
    emit(cols(st, e - st.pos), st, word_kind(value), value)
}

pub open spec fn lex_number(input: Seq<char>, st: LexState) -> LexOutcome {
    let p = if input[st.pos as int] == '-' { st.pos + 1 } else { st.pos as int };
    let e = number_end(input, p);
    let value = input.subrange(st.pos as int, e);
    emit(cols(st, e - st.pos), st, TokenTypeView::Number(value), value)
}

/// A `#hashtag` (`at` false) or an `@mention` (`at` true).
pub open spec fn lex_tag(input: Seq<char>, st: LexState, at: bool) -> LexOutcome {
    let e = word_end(input, st.pos + 1);
    let value = input.subrange(st.pos + 1, e);
    let kind = if at { TokenTypeView::Mention(value) } else { TokenTypeView::Hashtag(value) };
    emit(cols(st, e - st.pos), st, kind, input.subrange(st.pos as int, e))
}

pub open spec fn lex_quoted(input: Seq<char>, st: LexState) -> LexOutcome {
    let q = quote_end(input, st.pos + 1);
    if q >= input.len() {
        (track(input, st, input.len() as int), Err(LintErrorView::LexerError {
            span: char_span(position_of(st)),
            message: "Unterminated quoted string"@,
        }))
    } else {
        emit(track(input, st, q + 1), st, TokenTypeView::QuotedString(input.subrange(st.pos + 1, q)),
            input.subrange(st.pos as int, q + 1))
    }
}

pub open spec fn lex_tilde(input: Seq<char>, st: LexState) -> LexOutcome {
    let t = cols(st, 1);
    if t.pos < input.len() && ascii_digit(input[t.pos as int]) {
        let d = digits_end(input, t.pos as int);
        if d < input.len() && !char_whitespace(input[d]) && !tilde_follow_char(input[d]) && !ascii_digit(input[d]) {
            (cols(t, d - t.pos), Err(LintErrorView::LexerError {
                span: char_span(position_of(st)),
                message: "Invalid characters after proximity operator. Tilde operator format should be ~5 (with proper word boundary)."@,
            }))
        } else {
            emit(t, st, TokenTypeView::Tilde, "~"@)
        }
    } else {
        emit(t, st, TokenTypeView::Tilde, "~"@)
    }
}

pub open spec fn lex_colon(input: Seq<char>, st: LexState) -> LexOutcome {
    if st.pos > 0 && char_whitespace(input[st.pos - 1]) {
        (st, Err(LintErrorView::InvalidFieldOperatorSpacing {
            span: char_span(position_of(st)),
            message: "Field operator colon must be directly attached to the field name. If the colon is a search term, you'll need to put it in quote marks"@,
        }))
    } else {
        emit(cols(st, 1), st, TokenTypeView::Colon, ":"@)
    }
}

/// The token that starts at `st.pos`, outside comments and comment markers.
pub open spec fn lex_ordinary(input: Seq<char>, st: LexState) -> LexOutcome {
    let ch = input[st.pos as int];
    if ch == ' ' || ch == '\t' || ch == '\r' || ch == '\n' {
        emit(step(st, ch), st, TokenTypeView::Whitespace, seq![ch])
    } else if ch == '"' {
        lex_quoted(input, st)
    } else if ch == '(' {
        emit(cols(st, 1), st, TokenTypeView::LeftParen, "("@)
    } else if ch == ')' {
        emit(cols(st, 1), st, TokenTypeView::RightParen, ")"@)
    } else if ch == '[' {
        emit(cols(st, 1), st, TokenTypeView::LeftBracket, "["@)
    } else if ch == ']' {
        emit(cols(st, 1), st, TokenTypeView::RightBracket, "]"@)
    } else if ch == '{' {
        emit(cols(st, 1), st, TokenTypeView::LeftBrace, "{"@)
    } else if ch == '}' {
        emit(cols(st, 1), st, TokenTypeView::RightBrace, "}"@)
    } else if ch == '~' {
        lex_tilde(input, st)
    } else if ch == ':' {
        lex_colon(input, st)
    } else if ch == '#' {
        lex_tag(input, st, false)
    } else if ch == '@' {
        lex_tag(input, st, true)
    } else if ascii_digit(ch) || ch == '-' {
        if word_chars_ahead(input, st.pos as int) {
            lex_word(input, st)
        } else {
            lex_number(input, st)
        }
    } else if word_char(ch) {
        lex_word(input, st)
    } else {
        (cols(st, 1), Err(LintErrorView::LexerError {
            span: char_span(position_of(st)),
            message: "Unexpected character '"@ + seq![ch] + "'"@,
        }))
    }
}

pub open spec fn lex_comment_start(st: LexState) -> LexOutcome {
    let s2 = cols(st, 3);
    emit(LexState { in_comment: true, ..s2 }, st, TokenTypeView::CommentStart, "<<<"@)
}

pub open spec fn lex_comment_end(st: LexState) -> LexOutcome {
    emit(cols(st, 3), st, TokenTypeView::CommentEnd, ">>>"@)
}

/// What the comment markers do at `st.pos`: inside a comment, characters are skipped
/// up to `>>>`; outside, `<<<` and `>>>` are tokens. `Ok(None)` with the state
/// unchanged when neither applies.
pub open spec fn comment_transition(input: Seq<char>, st: LexState) -> LexOutcome
    decreases input.len() - st.pos, 0nat,
{
    let ch = input[st.pos as int];
    if st.pos >= input.len() || !input_fits(input.len() as int) {
        (st, Ok(None))
    } else if st.in_comment {
        if ch == '>' && peek_seq(input, st.pos as int, 2) == ">>"@ {
            lex_comment_end(LexState { in_comment: false, ..st })
        } else {
            next_token_spec(input, step(st, ch))
        }
    } else if ch == '<' && peek_seq(input, st.pos as int, 2) == "<<"@ {
        lex_comment_start(st)
    } else if ch == '>' && peek_seq(input, st.pos as int, 2) == ">>"@ {
        lex_comment_end(st)
    } else {
        (st, Ok(None))
    }
}

/// The next token of `input` from the state `st`; `Ok(None)` at the end of the input.
pub open spec fn next_token_spec(input: Seq<char>, st: LexState) -> LexOutcome
    decreases input.len() - st.pos, 1nat,
{
    if st.pos >= input.len() {
        (st, Ok(None))
    } else {
        let h = comment_transition(input, st);
        match h.1 {
            Ok(None) => if h.0.in_comment { h } else { lex_ordinary(input, h.0) },
            _ => h,
        }
    }
}

/// The tokens from the state `st` to the end of the input, whitespace left out,
/// with the state the lexer ends in; or the first error.
pub open spec fn tokens_from(input: Seq<char>, st: LexState) -> Result<(Seq<TokenView>, LexState), LintErrorView>
    decreases input.len() - st.pos,
{
    if st.pos >= input.len() {
        Ok((Seq::empty(), st))
    } else {
        let n = next_token_spec(input, st);
        match n.1 {
            Err(e) => Err(e),
            Ok(None) => Ok((Seq::empty(), n.0)),
            Ok(Some(t)) => if st.pos < n.0.pos <= input.len() {
                match tokens_from(input, n.0) {
                    Err(e) => Err(e),
                    Ok((ts, fin)) => Ok((if t.kind is Whitespace { ts } else { seq![t] + ts }, fin)),
                }
            } else {
                Ok((Seq::empty(), n.0))
            },
        }
    }
}

/// The end-of-input token at the state `st`.
pub open spec fn eof_token(st: LexState) -> TokenView {
    TokenView { kind: TokenTypeView::Eof, span: Span { start: position_of(st), end: position_of(st) }, raw: Seq::empty() }
}

/// The tokens of `input` from `st`, ending with the end-of-input token.
pub open spec fn tokenize_spec(input: Seq<char>, st: LexState) -> Result<Seq<TokenView>, LintErrorView> {
    match tokens_from(input, st) {
        Ok((ts, fin)) => Ok(ts.push(eof_token(fin))),
        Err(e) => Err(e),
    }
}

pub open spec fn tokens_view(ts: Seq<Token>) -> Seq<TokenView> {
    ts.map_values(|t: Token| t@)
}

pub open spec fn outcome_view(r: LintResult<Option<Token>>) -> Result<Option<TokenView>, LintErrorView> {
    match r {
        Ok(Some(t)) => Ok(Some(t@)),
        Ok(None) => Ok(None),
        Err(e) => Err(e@),
    }
}

/// Whether the column and offset of `p` can grow by one.
pub open spec fn pos_bounded(p: Position) -> bool {
    p.column < usize::MAX && p.offset < usize::MAX
}

/// Whether every token's span ends at a position that can grow by one.
pub open spec fn tokens_bounded(ts: Seq<TokenView>) -> bool {
    forall|i: int| 0 <= i < ts.len() ==> pos_bounded(#[trigger] ts[i].span.end)
}

/// A token read by `lex_ordinary` ends where the lexer stops.
proof fn lemma_ordinary_end(input: Seq<char>, st: LexState)
    ensures
        lex_ordinary(input, st).1 matches Ok(Some(t)) ==> t.span.end == position_of(lex_ordinary(input, st).0),
{
}

/// A token read by the lexer ends where the lexer stops.
pub proof fn lemma_token_end(input: Seq<char>, st: LexState)
    ensures
        next_token_spec(input, st).1 matches Ok(Some(t)) ==> t.span.end == position_of(next_token_spec(input, st).0),
    decreases input.len() - st.pos,
{
    if st.pos < input.len() && input_fits(input.len() as int) {
        let ch = input[st.pos as int];
        if st.in_comment && !(ch == '>' && peek_seq(input, st.pos as int, 2) == ">>"@) {
            lemma_token_end(input, step(st, ch));
        }
        let h = comment_transition(input, st);
        lemma_ordinary_end(input, h.0);
    }
}

proof fn lemma_ordinary_not_eof(input: Seq<char>, st: LexState)
    ensures
        lex_ordinary(input, st).1 matches Ok(Some(t)) ==> !(t.kind is Eof),
{
}

/// The lexer reads no end-of-input token: only `tokenize` adds one.
proof fn lemma_token_not_eof(input: Seq<char>, st: LexState)
    requires
        input_fits(input.len() as int),
    ensures
        next_token_spec(input, st).1 matches Ok(Some(t)) ==> !(t.kind is Eof),
    decreases input.len() - st.pos,
{
    if st.pos < input.len() {
        let ch = input[st.pos as int];
        if st.in_comment && !(ch == '>' && peek_seq(input, st.pos as int, 2) == ">>"@) {
            lemma_token_not_eof(input, step(st, ch));
        }
        let h = comment_transition(input, st);
        lemma_ordinary_not_eof(input, h.0);
    }
}

proof fn lemma_tokens_not_eof(input: Seq<char>, st: LexState)
    requires
        input_fits(input.len() as int),
    ensures
        tokens_from(input, st) matches Ok((ts, fin)) ==> forall|i: int| 0 <= i < ts.len() ==> !(#[trigger] ts[i].kind is Eof),
    decreases input.len() - st.pos,
{
    if st.pos < input.len() {
        let n = next_token_spec(input, st);
        lemma_token_not_eof(input, st);
        if n.1 is Ok && n.1->Ok_0 is Some && st.pos < n.0.pos <= input.len() {
            lemma_tokens_not_eof(input, n.0);
            let t = n.1->Ok_0->Some_0;
            match tokens_from(input, n.0) {
                Ok((ts, fin)) => {
                    if !(t.kind is Whitespace) {
                        assert forall|i: int| 0 <= i < (seq![t] + ts).len() implies !(#[trigger] (seq![t] + ts)[i].kind is Eof) by {
                            if i > 0 {
                                assert((seq![t] + ts)[i] == ts[i - 1]);
                            }
                        }
                    }
                },
                Err(_) => {},
            }
        }
    }
}

/// The tokens of a query end with the end-of-input token, and no other token is one.
pub proof fn law_single_end_token(input: Seq<char>, st: LexState)
    requires
        input_fits(input.len() as int),
    ensures
        tokenize_spec(input, st) matches Ok(ts) ==> {
            &&& ts.len() >= 1
            &&& ts[ts.len() - 1].kind is Eof
            &&& forall|i: int| 0 <= i < ts.len() - 1 ==> !(#[trigger] ts[i].kind is Eof)
        },
{
    lemma_tokens_not_eof(input, st);
    match tokens_from(input, st) {
        Ok((ts, fin)) => {
            assert forall|i: int| 0 <= i < ts.push(eof_token(fin)).len() - 1 implies !(#[trigger] ts.push(eof_token(fin))[i].kind is Eof) by {
                assert(ts.push(eof_token(fin))[i] == ts[i]);
            }
        },
        Err(_) => {},
    }
}

/// Whether the token `t` lies within `input`, its raw text being exactly the
/// characters its span covers.
pub open spec fn token_covers(input: Seq<char>, t: TokenView) -> bool {
    &&& t.span.start.offset <= t.span.end.offset <= input.len()
    &&& t.raw == input.subrange(t.span.start.offset as int, t.span.end.offset as int)
}

proof fn lemma_one_char_raw(input: Seq<char>, p: int, lit: Seq<char>)
    requires
        0 <= p < input.len(),
        lit.len() == 1,
        lit[0] == input[p],
    ensures
        lit == input.subrange(p, p + 1),
{
    assert(lit =~= input.subrange(p, p + 1));
}

/// A token read by `lex_ordinary` starts where the lexer stands and covers its raw
/// text.
proof fn lemma_ordinary_covers(input: Seq<char>, st: LexState)
    requires
        st.pos < input.len(),
        input_fits(input.len() as int),
    ensures
        lex_ordinary(input, st).1 matches Ok(Some(t)) ==> token_covers(input, t) && t.span.start.offset == st.pos,
{
    let p = st.pos as int;
    let ch = input[p];
    reveal_strlit("(");
    reveal_strlit(")");
    reveal_strlit("[");
    reveal_strlit("]");
    reveal_strlit("{");
    reveal_strlit("}");
    reveal_strlit("~");
    reveal_strlit(":");
    if ch == ' ' || ch == '\t' || ch == '\r' || ch == '\n' {
        lemma_one_char_raw(input, p, seq![ch]);
    } else if ch == '"' {
        lemma_quote_end(input, p + 1);
        let q = quote_end(input, p + 1);
        if q < input.len() {
            lemma_track_pos(input, st, q + 1);
        }
    } else if ch == '(' {
        lemma_one_char_raw(input, p, "("@);
    } else if ch == ')' {
        lemma_one_char_raw(input, p, ")"@);
    } else if ch == '[' {
        lemma_one_char_raw(input, p, "["@);
    } else if ch == ']' {
        lemma_one_char_raw(input, p, "]"@);
    } else if ch == '{' {
        lemma_one_char_raw(input, p, "{"@);
    } else if ch == '}' {
        lemma_one_char_raw(input, p, "}"@);
    } else if ch == '~' {
        lemma_one_char_raw(input, p, "~"@);
    } else if ch == ':' {
        lemma_one_char_raw(input, p, ":"@);
    } else if ch == '#' || ch == '@' {
        lemma_word_end(input, p + 1);
    } else if ascii_digit(ch) || ch == '-' {
        lemma_word_end(input, p);
        let q = if ch == '-' { p + 1 } else { p };
        lemma_number_end(input, q);
    } else if word_char(ch) {
        lemma_word_end(input, p);
    }
}

/// A token read by the lexer from `st` starts at or after `st` and covers its raw
/// text.
proof fn lemma_token_covers(input: Seq<char>, st: LexState)
    requires
        input_fits(input.len() as int),
    ensures
        next_token_spec(input, st).1 matches Ok(Some(t)) ==> token_covers(input, t) && st.pos <= t.span.start.offset,
    decreases input.len() - st.pos,
{
    if st.pos < input.len() {
        let p = st.pos as int;
        let ch = input[p];
        reveal_strlit("<<");
        reveal_strlit(">>");
        reveal_strlit("<<<");
        reveal_strlit(">>>");
        if st.in_comment && !(ch == '>' && peek_seq(input, p, 2) == ">>"@) {
            lemma_token_covers(input, step(st, ch));
        } else if (ch == '>' && peek_seq(input, p, 2) == ">>"@) {
            let pk = peek_seq(input, p, 2);
            assert(pk.len() == 2);
            assert(p + 3 <= input.len());
            assert(pk[0] == input[p + 1] && pk[1] == input[p + 2]);
            assert(">>>"@ =~= input.subrange(p, p + 3));
        } else if !st.in_comment && ch == '<' && peek_seq(input, p, 2) == "<<"@ {
            let pk = peek_seq(input, p, 2);
            assert(pk.len() == 2);
            assert(p + 3 <= input.len());
            assert(pk[0] == input[p + 1] && pk[1] == input[p + 2]);
            assert("<<<"@ =~= input.subrange(p, p + 3));
        } else {
            lemma_ordinary_covers(input, st);
        }
    }
}

proof fn lemma_tokens_cover(input: Seq<char>, st: LexState)
    requires
        input_fits(input.len() as int),
    ensures
        tokens_from(input, st) matches Ok((ts, fin)) ==> {
            &&& forall|i: int| 0 <= i < ts.len() ==> token_covers(input, #[trigger] ts[i]) && st.pos <= ts[i].span.start.offset
            &&& forall|i: int| 0 <= i < ts.len() - 1 ==> (#[trigger] ts[i]).span.end.offset <= ts[i + 1].span.start.offset
        },
    decreases input.len() - st.pos,
{
    if st.pos < input.len() {
        let n = next_token_spec(input, st);
        lemma_token_covers(input, st);
        lemma_token_end(input, st);
        if n.1 is Ok && n.1->Ok_0 is Some && st.pos < n.0.pos <= input.len() {
            lemma_tokens_cover(input, n.0);
            let t = n.1->Ok_0->Some_0;
            match tokens_from(input, n.0) {
                Ok((ts, fin)) => {
                    if !(t.kind is Whitespace) {
                        let all = seq![t] + ts;
                        assert forall|i: int| 0 <= i < all.len() implies token_covers(input, #[trigger] all[i]) && st.pos <= all[i].span.start.offset by {
                            if i > 0 {
                                assert(all[i] == ts[i - 1]);
                            }
                        }
                        assert forall|i: int| 0 <= i < all.len() - 1 implies (#[trigger] all[i]).span.end.offset <= all[i + 1].span.start.offset by {
                            assert(all[i + 1] == ts[i]);
                            if i > 0 {
                                assert(all[i] == ts[i - 1]);
                            }
                        }
                    }
                },
                Err(_) => {},
            }
        }
    }
}

/// Every token of a query but the end-of-input token lies within the query, its raw
/// text being exactly the characters its span covers, and each token ends at or
/// before the start of the next.
pub proof fn law_token_text(input: Seq<char>, st: LexState)
    requires
        input_fits(input.len() as int),
    ensures
        tokenize_spec(input, st) matches Ok(ts) ==> {
            &&& forall|i: int| 0 <= i < ts.len() - 1 ==> token_covers(input, #[trigger] ts[i])
            &&& forall|i: int| 0 <= i < ts.len() - 2 ==> (#[trigger] ts[i]).span.end.offset <= ts[i + 1].span.start.offset
        },
{
    lemma_tokens_cover(input, st);
    match tokens_from(input, st) {
        Ok((ts, fin)) => {
            let all = ts.push(eof_token(fin));
            assert forall|i: int| 0 <= i < all.len() - 1 implies token_covers(input, #[trigger] all[i]) by {
                assert(all[i] == ts[i]);
            }
            assert forall|i: int| 0 <= i < all.len() - 2 implies (#[trigger] all[i]).span.end.offset <= all[i + 1].span.start.offset by {
                assert(all[i] == ts[i]);
                assert(all[i + 1] == ts[i + 1]);
            }
        },
        Err(_) => {},
    }
}

/// The number of line feeds in `s`.
pub open spec fn line_feeds(s: Seq<char>) -> nat
    decreases s.len(),
{
    if s.len() == 0 {
        0
    } else {
        line_feeds(s.drop_last()) + (if s.last() == '\n' { 1nat } else { 0nat })
    }
}

/// Whether the lexer state `at` stands on the line that the line feeds of `input`
/// from `base` put it on.
pub open spec fn on_tracked_line(input: Seq<char>, base: LexState, at: LexState) -> bool {
    &&& base.pos <= at.pos <= input.len()
    &&& at.line == base.line + line_feeds(input.subrange(base.pos as int, at.pos as int))
}

proof fn lemma_line_feeds_step(input: Seq<char>, a: int, c: int)
    requires
        0 <= a <= c < input.len(),
    ensures
        line_feeds(input.subrange(a, c + 1)) == line_feeds(input.subrange(a, c)) + (if input[c] == '\n' { 1nat } else { 0nat }),
        line_feeds(input.subrange(a, c)) <= c - a,
    decreases c - a,
{
    assert(input.subrange(a, c + 1).drop_last() =~= input.subrange(a, c));
    if a < c {
        lemma_line_feeds_step(input, a, c - 1);
    } else {
        assert(input.subrange(a, c) =~= Seq::<char>::empty());
    }
}

/// Moving over `n` characters with no line feed among them stays on the line.
proof fn lemma_cols_tracked(input: Seq<char>, base: LexState, st: LexState, n: int)
    requires
        on_tracked_line(input, base, st),
        0 <= n,
        st.pos + n <= input.len(),
        input_fits(input.len() as int),
        forall|k: int| st.pos <= k < st.pos + n ==> #[trigger] input[k] != '\n',
    ensures
        on_tracked_line(input, base, cols(st, n)),
    decreases n,
{
    if n > 0 {
        lemma_cols_tracked(input, base, st, n - 1);
        lemma_line_feeds_step(input, base.pos as int, st.pos + n - 1);
    }
}

/// Moving over one character stays on the line, or goes to the next after a line
/// feed.
proof fn lemma_step_tracked(input: Seq<char>, base: LexState, st: LexState)
    requires
        on_tracked_line(input, base, st),
        st.pos < input.len(),
        base.line + input.len() <= usize::MAX,
        input_fits(input.len() as int),
    ensures
        on_tracked_line(input, base, step(st, input[st.pos as int])),
{
    lemma_line_feeds_step(input, base.pos as int, st.pos as int);
}

proof fn lemma_track_tracked(input: Seq<char>, base: LexState, st: LexState, end: int)
    requires
        on_tracked_line(input, base, st),
        st.pos <= end <= input.len(),
        base.line + input.len() <= usize::MAX,
        input_fits(input.len() as int),
    ensures
        on_tracked_line(input, base, track(input, st, end)),
    decreases end - st.pos,
{
    if st.pos < end {
        lemma_track_tracked(input, base, st, end - 1);
        lemma_track_pos(input, st, end - 1);
        lemma_step_tracked(input, base, track(input, st, end - 1));
    }
}

proof fn lemma_word_run(input: Seq<char>, p: int)
    requires
        0 <= p <= input.len(),
    ensures
        forall|k: int| p <= k < word_end(input, p) ==> word_char(#[trigger] input[k]),
    decreases input.len() - p,
{
    if p < input.len() && word_char(input[p]) {
        lemma_word_run(input, p + 1);
    }
}

proof fn lemma_number_run(input: Seq<char>, p: int)
    requires
        0 <= p <= input.len(),
    ensures
        forall|k: int| p <= k < number_end(input, p) ==> #[trigger] input[k] != '\n',
    decreases input.len() - p,
{
    if p < input.len() && (ascii_digit(input[p]) || input[p] == '.') {
        lemma_number_run(input, p + 1);
    }
}

/// A token read by `lex_ordinary` leaves the lexer on the line its characters lead to.
proof fn lemma_ordinary_lines(input: Seq<char>, base: LexState, st: LexState)
    requires
        on_tracked_line(input, base, st),
        st.pos < input.len(),
        base.line + input.len() <= usize::MAX,
        input_fits(input.len() as int),
    ensures
        lex_ordinary(input, st).1 matches Ok(Some(t)) ==> on_tracked_line(input, base, lex_ordinary(input, st).0),
{
    let p = st.pos as int;
    let ch = input[p];
    if ch == ' ' || ch == '\t' || ch == '\r' || ch == '\n' {
        lemma_step_tracked(input, base, st);
    } else if ch == '"' {
        lemma_quote_end(input, p + 1);
        let q = quote_end(input, p + 1);
        if q < input.len() {
            lemma_track_tracked(input, base, st, q + 1);
        }
    } else if ch == '(' || ch == ')' || ch == '[' || ch == ']' || ch == '{' || ch == '}' || ch == '~' || ch == ':' {
        lemma_cols_tracked(input, base, st, 1);
    } else if ch == '#' || ch == '@' {
        lemma_word_end(input, p + 1);
        lemma_word_run(input, p + 1);
        lemma_cols_tracked(input, base, st, word_end(input, p + 1) - p);
    } else if ascii_digit(ch) || ch == '-' {
        lemma_word_end(input, p);
        lemma_word_run(input, p);
        let q = if ch == '-' { p + 1 } else { p };
        lemma_number_end(input, q);
        lemma_number_run(input, q);
        if word_chars_ahead(input, p) {
            lemma_cols_tracked(input, base, st, word_end(input, p) - p);
        } else {
            lemma_cols_tracked(input, base, st, number_end(input, q) - p);
        }
    } else if word_char(ch) {
        lemma_word_end(input, p);
        lemma_word_run(input, p);
        lemma_cols_tracked(input, base, st, word_end(input, p) - p);
    }
}

/// A token read by the lexer starts and ends on the lines that the line feeds
/// before them lead to.
proof fn lemma_token_lines(input: Seq<char>, base: LexState, st: LexState)
    requires
        on_tracked_line(input, base, st),
        base.line + input.len() <= usize::MAX,
        input_fits(input.len() as int),
    ensures
        next_token_spec(input, st).1 matches Ok(Some(t)) ==> {
            &&& on_tracked_line(input, base, next_token_spec(input, st).0)
            &&& t.span.start.offset >= base.pos
            &&& t.span.start.line == base.line + line_feeds(input.subrange(base.pos as int, t.span.start.offset as int))
        },
    decreases input.len() - st.pos,
{
    if st.pos < input.len() {
        let p = st.pos as int;
        let ch = input[p];
        reveal_strlit(">>");
        reveal_strlit("<<");
        if st.in_comment && !(ch == '>' && peek_seq(input, p, 2) == ">>"@) {
            lemma_step_tracked(input, base, st);
            lemma_token_lines(input, base, step(st, ch));
        } else if (ch == '>' && peek_seq(input, p, 2) == ">>"@) || (!st.in_comment && ch == '<' && peek_seq(input, p, 2) == "<<"@) {
            let pk = peek_seq(input, p, 2);
            assert(pk.len() == 2);
            assert(pk[0] == input[p + 1] && pk[1] == input[p + 2]);
            lemma_cols_tracked(input, base, st, 3);
        } else {
            lemma_ordinary_lines(input, base, st);
        }
    }
}

proof fn lemma_tokens_lines(input: Seq<char>, base: LexState, st: LexState)
    requires
        on_tracked_line(input, base, st),
        base.line + input.len() <= usize::MAX,
        input_fits(input.len() as int),
    ensures
        tokens_from(input, st) matches Ok((ts, fin)) ==> forall|i: int| 0 <= i < ts.len() ==> {
            &&& (#[trigger] ts[i]).span.start.offset >= base.pos
            &&& ts[i].span.end.offset >= base.pos
            &&& ts[i].span.start.line == base.line + line_feeds(input.subrange(base.pos as int, ts[i].span.start.offset as int))
            &&& ts[i].span.end.line == base.line + line_feeds(input.subrange(base.pos as int, ts[i].span.end.offset as int))
        },
    decreases input.len() - st.pos,
{
    if st.pos < input.len() {
        let n = next_token_spec(input, st);
        lemma_token_lines(input, base, st);
        lemma_token_end(input, st);
        if n.1 is Ok && n.1->Ok_0 is Some && st.pos < n.0.pos <= input.len() {
            lemma_tokens_lines(input, base, n.0);
            let t = n.1->Ok_0->Some_0;
            match tokens_from(input, n.0) {
                Ok((ts, fin)) => {
                    if !(t.kind is Whitespace) {
                        let all = seq![t] + ts;
                        assert forall|i: int| 0 <= i < all.len() implies {
                            &&& (#[trigger] all[i]).span.start.offset >= base.pos
                            &&& all[i].span.end.offset >= base.pos
                            &&& all[i].span.start.line == base.line + line_feeds(input.subrange(base.pos as int, all[i].span.start.offset as int))
                            &&& all[i].span.end.line == base.line + line_feeds(input.subrange(base.pos as int, all[i].span.end.offset as int))
                        } by {
                            if i > 0 {
                                assert(all[i] == ts[i - 1]);
                            }
                        }
                    }
                },
                Err(_) => {},
            }
        }
    }
}

/// Every token of a query but the end-of-input token starts and ends on the line
/// that the line feeds before it lead to, counting from the line the lexer starts on.
pub proof fn law_token_lines(input: Seq<char>, st: LexState)
    requires
        input_fits(input.len() as int),
        st.pos <= input.len(),
        st.line + input.len() <= usize::MAX,
    ensures
        tokenize_spec(input, st) matches Ok(ts) ==> forall|i: int| 0 <= i < ts.len() - 1 ==> {
            &&& (#[trigger] ts[i]).span.start.line == st.line + line_feeds(input.subrange(st.pos as int, ts[i].span.start.offset as int))
            &&& ts[i].span.end.line == st.line + line_feeds(input.subrange(st.pos as int, ts[i].span.end.offset as int))
        },
{
    assert(input.subrange(st.pos as int, st.pos as int) =~= Seq::<char>::empty());
    lemma_tokens_lines(input, st, st);
    match tokens_from(input, st) {
        Ok((ts, fin)) => {
            let all = ts.push(eof_token(fin));
            assert forall|i: int| 0 <= i < all.len() - 1 implies {
                &&& (#[trigger] all[i]).span.start.line == st.line + line_feeds(input.subrange(st.pos as int, all[i].span.start.offset as int))
                &&& all[i].span.end.line == st.line + line_feeds(input.subrange(st.pos as int, all[i].span.end.offset as int))
            } by {
                assert(all[i] == ts[i]);
            }
        },
        Err(_) => {},
    }
}

/// `NEAR/` followed by the decimal digits of a distance is the NEAR operator with
/// that distance, and with an `f` after the digits the forward NEAR operator: for
/// every distance `d`, `NEAR/d` reads as `Near(d)` and `NEAR/df` as `NearForward(d)`.
pub proof fn law_near_words(d: u32)
    ensures
        word_kind("NEAR/"@ + decimal(d as nat)) == TokenTypeView::Near(d),
        word_kind("NEAR/"@ + decimal(d as nat) + "f"@) == TokenTypeView::NearForward(d),
{
    reveal_strlit("NEAR/");
    reveal_strlit("f");
    reveal_strlit("AND");
    reveal_strlit("OR");
    reveal_strlit("NOT");
    reveal_strlit("TO");
    crate::number::law_decimal_reads_back(d);
    crate::number::lemma_decimal_digits(d as nat);
    let digits = decimal(d as nat);
    let near = "NEAR/"@ + digits;
    assert(near.take(5) =~= "NEAR/"@);
    assert(near.skip(5) =~= digits);
    assert(near.last() == digits[digits.len() - 1]);
    assert(near.last() != 'f');
    assert(near.len() != 3 && near.len() != 2);
    let forward = near + "f"@;
    assert(forward.take(5) =~= "NEAR/"@);
    assert(forward.skip(5).drop_last() =~= digits);
    assert(forward.last() == 'f');
    assert(forward.len() > 6);
}

/// The inputs the lexer takes: short enough that offsets and columns fit in `usize`.
pub open spec fn input_fits(len: int) -> bool {
    len + 8 <= usize::MAX
}

// ---------------------------------------------------------------------------
// The lexer.
// ---------------------------------------------------------------------------

pub struct Lexer {
    input: Vec<char>,
    position: usize,
    line: usize,
    column: usize,
    inside_comment: bool,
}

impl Lexer {
    pub closed spec fn chars(&self) -> Seq<char> {
        self.input@
    }

    pub closed spec fn state(&self) -> LexState {
        LexState { pos: self.position, line: self.line, col: self.column, in_comment: self.inside_comment }
    }

    /// The lexer's bookkeeping is consistent: lines and columns count from 1 and grow
    /// at most one per character read.
    pub closed spec fn wf(&self) -> bool {
        &&& input_fits(self.input@.len() as int)
        &&& self.position <= self.input@.len()
        &&& self.line >= 1
        &&& self.column >= 1
        &&& self.line + self.column <= self.position + 2
    }

    pub open spec fn state_wf(input: Seq<char>, st: LexState) -> bool {
        &&& input_fits(input.len() as int)
        &&& st.pos <= input.len()
        &&& st.line >= 1
        &&& st.col >= 1
        &&& st.line + st.col <= st.pos + 2
    }

    fn is_word_char(&self, ch: char) -> (r: bool)
        ensures
            r == word_char(ch),
    {
        is_alphabetic(ch) || is_numeric(ch) || ch == '_' || ch == '.' || ch == '-' || ch == '/'
            || ch == '*' || ch == '?' || ch == '$' || ch == '&' || ch == '#' || ch == '+' || ch == '%'
            || ch == '=' || ch == '`' || ch == '|' || ch == '@' || ch == '\'' || ch == ';'
            || (!is_ascii(ch) && !is_control(ch) && !(ch == '(' || ch == ')' || ch == '[' || ch == ']'
            || ch == '{' || ch == '}' || ch == ':' || ch == '~' || ch == '"' || ch == '<' || ch == '>'))
    }

    fn is_word_boundary_char(&self, ch: char) -> (r: bool)
        ensures
            r == boundary_char(ch),
    {
        is_whitespace(ch) || ch == '(' || ch == ')' || ch == '[' || ch == ']' || ch == '{' || ch == '}'
            || ch == ':' || ch == '~' || ch == '"' || ch == '#' || ch == '@' || ch == '<' || ch == '>'
    }

    pub fn new(input: &str) -> (r: Self)
        requires
            input_fits(input@.len() as int),
        ensures
            r.wf(),
            r.chars() == input@,
            r.state() == (LexState { pos: 0, line: 1, col: 1, in_comment: false }),
    {
        Lexer { input: crate::text::chars_of(input), position: 0, line: 1, column: 1, inside_comment: false }
    }

    fn current_char(&self) -> (r: char)
        ensures
            self.position < self.input@.len() ==> r == self.input@[self.position as int],
    {
        if self.is_at_end() {
            '\0'
        } else {
            self.input[self.position]
        }
    }

    fn advance(&mut self)
        requires
            input_fits(old(self).input@.len() as int),
        ensures
            final(self).input == old(self).input,
            final(self).line == old(self).line,
            final(self).column == old(self).column,
            final(self).inside_comment == old(self).inside_comment,
            final(self).position == if old(self).position < old(self).input@.len() {
                old(self).position + 1
            } else {
                old(self).position as int
            },
    {
        if !self.is_at_end() {
            self.position += 1;
        }
    }

    fn is_at_end(&self) -> (r: bool)
        ensures
            r == (self.position >= self.input@.len()),
    {
        self.position >= self.input.len()
    }

    fn current_position(&self) -> (r: Position)
        ensures
            r == position_of(self.state()),
    {
        Position::new(self.line, self.column, self.position)
    }

    fn peek_ahead(&self, n: usize) -> (r: String)
        requires
            self.position <= self.input@.len(),
            input_fits(self.input@.len() as int),
            n <= 2,
        ensures
            r@ == peek_seq(self.input@, self.position as int, n as int),
    {
        let mut result = String::new();
        let mut i: usize = 0;
        let ghost a: int = if self.position + 1 < self.input@.len() { self.position + 1 } else { self.input@.len() as int };
        while i < n
            invariant
                i <= n <= 2,
                self.position <= self.input@.len(),
                input_fits(self.input@.len() as int),
                a == (if self.position + 1 < self.input@.len() { self.position + 1 } else { self.input@.len() as int }),
                result@ == self.input@.subrange(a, if self.position + 1 + i < self.input@.len() { self.position + 1 + i } else { self.input@.len() as int }),
            decreases n - i,
        {
            if self.position + i + 1 < self.input.len() {
                push_char(&mut result, self.input[self.position + i + 1]);
                assert(result@ =~= self.input@.subrange(a, self.position + 1 + i + 1));
            } else {
                assert(peek_seq(self.input@, self.position as int, n as int) =~= result@);
                return result;
            }
            i += 1;
        }
        result
    }

    /// Moves over one character on the current line.
    fn bump(&mut self)
        requires
            old(self).wf(),
            old(self).position < old(self).input@.len(),
        ensures
            final(self).wf(),
            final(self).input == old(self).input,
            final(self).state() == cols(old(self).state(), 1),
    {
        self.advance();
        self.column += 1;
    }

    fn advance_with_position_tracking(&mut self, ch: char)
        requires
            old(self).wf(),
            old(self).position < old(self).input@.len(),
        ensures
            final(self).wf(),
            final(self).input == old(self).input,
            final(self).state() == step(old(self).state(), ch),
    {
        self.advance();
        if ch == '\n' {
            self.line += 1;
            self.column = 1;
        } else {
            self.column += 1;
        }
    }

    /// Reads the run of word characters at the current position onto `value`.
    fn read_word_chars(&mut self, value: &mut String, chars: &mut Vec<char>)
        requires
            old(self).wf(),
        ensures
            final(self).wf(),
            final(self).input == old(self).input,
            final(self).state() == cols(old(self).state(), word_end(old(self).input@, old(self).position as int) - old(self).position),
            final(value)@ == old(value)@ + old(self).input@.subrange(old(self).position as int, final(self).position as int),
            final(chars)@ == old(chars)@ + old(self).input@.subrange(old(self).position as int, final(self).position as int),
            final(self).position == word_end(old(self).input@, old(self).position as int),
    {
        let ghost p0 = self.position as int;
        let ghost c0 = self.column as int;
        let ghost v0 = value@;
        let ghost w0 = chars@;
        while !self.is_at_end() && self.is_word_char(self.current_char())
            invariant
                self.wf(),
                self.input == old(self).input,
                self.line == old(self).line,
                self.inside_comment == old(self).inside_comment,
                0 <= p0 <= self.position,
                self.column == c0 + (self.position - p0),
                word_end(self.input@, p0) == word_end(self.input@, self.position as int),
                value@ == v0 + self.input@.subrange(p0, self.position as int),
                chars@ == w0 + self.input@.subrange(p0, self.position as int),
            decreases self.input@.len() - self.position,
        {
            let c = self.current_char();
            assert(self.position < self.input@.len());
            assert(c == self.input@[self.position as int]);
            push_char(value, c);
            chars.push(c);
            let ghost pp = self.position as int;
            assert(0 <= p0 <= pp < self.input@.len());
            assert(self.input@.subrange(p0, pp + 1) =~= self.input@.subrange(p0, pp).push(c));
            self.bump();
        }
    }

    /// The token type of the run of word characters `chars`, whose text is `value`.
    fn word_token_type(chars: &Vec<char>, value: String) -> (r: TokenType)
        requires
            value@ == chars@,
        ensures
            r@ == word_kind(chars@),
    {
        if eq_lit(chars, "AND") {
            TokenType::And
        } else if eq_lit(chars, "OR") {
            TokenType::Or
        } else if eq_lit(chars, "NOT") {
            TokenType::Not
        } else if eq_lit(chars, "TO") {
            TokenType::To
        } else if chars.len() >= 5 && chars[0] == 'N' && chars[1] == 'E' && chars[2] == 'A' && chars[3] == 'R' && chars[4] == '/' {
            proof {
                reveal_strlit("NEAR/");
                assert(chars@.take(5) =~= "NEAR/"@);
            }
            let n = chars.len();
            if chars[n - 1] == 'f' && n > 6 {
                assert(chars@.skip(5).drop_last() =~= chars@.subrange(5, n - 1));
                match parse_u32_chars(chars, 5, n - 1) {
                    Some(d) => TokenType::NearForward(d),
                    None => TokenType::Word(value),
                }
            } else if n > 5 {
                assert(chars@.skip(5) =~= chars@.subrange(5, n as int));
                match parse_u32_chars(chars, 5, n) {
                    Some(d) => TokenType::Near(d),
                    None => TokenType::Word(value),
                }
            } else {
                TokenType::Word(value)
            }
        } else {
            proof {
                reveal_strlit("NEAR/");
                if chars@.len() >= 5 {
                    assert(chars@.take(5)[0] == chars@[0]);
                    assert(chars@.take(5)[1] == chars@[1]);
                    assert(chars@.take(5)[2] == chars@[2]);
                    assert(chars@.take(5)[3] == chars@[3]);
                    assert(chars@.take(5)[4] == chars@[4]);
                }
            }
            TokenType::Word(value)
        }
    }

    fn read_word_or_operator(&mut self) -> (r: LintResult<Option<Token>>)
        requires
            old(self).wf(),
        ensures
            final(self).wf(),
            final(self).input == old(self).input,
            (final(self).state(), outcome_view(r)) == lex_word(old(self).input@, old(self).state()),
    {
        let start_pos = self.current_position();
        let mut value = String::new();
        let mut chars: Vec<char> = Vec::new();
        self.read_word_chars(&mut value, &mut chars);
        let end_pos = self.current_position();
        let span = Span::new(start_pos, end_pos);
        let raw = value.clone();
        let token_type = Self::word_token_type(&chars, value);
        Ok(Some(Token::new(token_type, span, raw)))
    }

    fn read_number(&mut self) -> (r: LintResult<Option<Token>>)
        requires
            old(self).wf(),
            old(self).position < old(self).input@.len(),
        ensures
            final(self).wf(),
            final(self).input == old(self).input,
            (final(self).state(), outcome_view(r)) == lex_number(old(self).input@, old(self).state()),
    {
        let start_pos = self.current_position();
        let mut value = String::new();
        let ghost p0 = self.position as int;
        let ghost c0 = self.column as int;
        if self.current_char() == '-' {
            push_char(&mut value, self.current_char());
            self.bump();
        }
        let ghost p1 = self.position as int;
        assert(p1 == if self.input@[p0] == '-' { p0 + 1 } else { p0 });
        while !self.is_at_end() && (is_ascii_digit(self.current_char()) || self.current_char() == '.')
            invariant
                self.wf(),
                self.input == old(self).input,
                self.line == old(self).line,
                self.inside_comment == old(self).inside_comment,
                0 <= p0 <= p1 <= self.position,
                p0 == start_pos.offset,
                start_pos == position_of(old(self).state()),
                self.column == c0 + (self.position - p0),
                c0 == old(self).column,
                number_end(self.input@, p1) == number_end(self.input@, self.position as int),
                value@ == self.input@.subrange(p0, self.position as int),
            decreases self.input@.len() - self.position,
        {
            let c = self.current_char();
            let ghost pp = self.position as int;
            assert(self.input@.subrange(p0, pp + 1) =~= self.input@.subrange(p0, pp).push(c));
            push_char(&mut value, c);
            self.bump();
        }
        let end_pos = self.current_position();
        let raw = value.clone();
        Ok(Some(Token::new(TokenType::Number(value), Span::new(start_pos, end_pos), raw)))
    }

    /// Reads a `#hashtag` (`at` false) or an `@mention` (`at` true).
    fn read_tag(&mut self, at: bool) -> (r: LintResult<Option<Token>>)
        requires
            old(self).wf(),
            old(self).position < old(self).input@.len(),
        ensures
            final(self).wf(),
            final(self).input == old(self).input,
            (final(self).state(), outcome_view(r)) == lex_tag(old(self).input@, old(self).state(), at),
    {
        let start_pos = self.current_position();
        let first = self.current_char();
        proof {
            lemma_word_end(self.input@, self.position + 1);
        }
        self.bump();
        let mut value = String::new();
        let mut chars: Vec<char> = Vec::new();
        self.read_word_chars(&mut value, &mut chars);
        let end_pos = self.current_position();
        let mut raw = string_of_char(first);
        crate::text::push_str(&mut raw, value.as_str());
        assert(value@ =~= old(self).input@.subrange(start_pos.offset + 1, end_pos.offset as int));
        assert(first == old(self).input@[start_pos.offset as int]);
        assert(raw@ =~= old(self).input@.subrange(start_pos.offset as int, end_pos.offset as int));
        let token_type = if at { TokenType::Mention(value) } else { TokenType::Hashtag(value) };
        Ok(Some(Token::new(token_type, Span::new(start_pos, end_pos), raw)))
    }

    fn read_hashtag(&mut self) -> (r: LintResult<Option<Token>>)
        requires
            old(self).wf(),
            old(self).position < old(self).input@.len(),
        ensures
            final(self).wf(),
            final(self).input == old(self).input,
            (final(self).state(), outcome_view(r)) == lex_tag(old(self).input@, old(self).state(), false),
    {
        self.read_tag(false)
    }

    fn read_mention(&mut self) -> (r: LintResult<Option<Token>>)
        requires
            old(self).wf(),
            old(self).position < old(self).input@.len(),
        ensures
            final(self).wf(),
            final(self).input == old(self).input,
            (final(self).state(), outcome_view(r)) == lex_tag(old(self).input@, old(self).state(), true),
    {
        self.read_tag(true)
    }

    fn read_quoted_string(&mut self) -> (r: LintResult<Option<Token>>)
        requires
            old(self).wf(),
            old(self).position < old(self).input@.len(),
            old(self).input@[old(self).position as int] == '"',
        ensures
            final(self).wf(),
            final(self).input == old(self).input,
            (final(self).state(), outcome_view(r)) == lex_quoted(old(self).input@, old(self).state()),
    {
        let start_pos = self.current_position();
        let ghost st0 = self.state();
        let ghost p0 = self.position as int;
        let mut value = String::new();
        let mut raw = String::new();
        push_char(&mut raw, self.current_char());
        self.bump();
        assert(track(self.input@, st0, p0 + 1) == self.state()) by {
            assert(track(self.input@, st0, p0) == st0);
        }
        while !self.is_at_end() && self.current_char() != '"'
            invariant
                self.wf(),
                self.input == old(self).input,
                st0 == old(self).state(),
                0 <= p0 < self.position,
                p0 == st0.pos,
                start_pos == position_of(st0),
                self.state() == track(self.input@, st0, self.position as int),
                quote_end(self.input@, p0 + 1) == quote_end(self.input@, self.position as int),
                value@ == self.input@.subrange(p0 + 1, self.position as int),
                raw@ == self.input@.subrange(p0, self.position as int),
            decreases self.input@.len() - self.position,
        {
            let ch = self.current_char();
            let ghost pp = self.position as int;
            assert(self.input@.subrange(p0 + 1, pp + 1) =~= self.input@.subrange(p0 + 1, pp).push(ch));
            assert(self.input@.subrange(p0, pp + 1) =~= self.input@.subrange(p0, pp).push(ch));
            push_char(&mut value, ch);
            push_char(&mut raw, ch);
            self.advance_with_position_tracking(ch);
        }
        if self.is_at_end() {
            return Err(LintError::LexerError {
                span: Span::single_character(start_pos),
                message: owned("Unterminated quoted string"),
            });
        }
        let ghost pq = self.position as int;
        assert(self.input@.subrange(p0, pq + 1) =~= self.input@.subrange(p0, pq).push(self.input@[pq]));
        push_char(&mut raw, self.current_char());
        self.advance_with_position_tracking('"');
        let end_pos = self.current_position();
        Ok(Some(Token::new(TokenType::QuotedString(value), Span::new(start_pos, end_pos), raw)))
    }

    fn read_comment_start(&mut self) -> (r: LintResult<Option<Token>>)
        requires
            old(self).wf(),
            old(self).position + 2 < old(self).input@.len(),
        ensures
            final(self).wf(),
            final(self).input == old(self).input,
            (final(self).state(), outcome_view(r)) == lex_comment_start(old(self).state()),
    {
        let start_pos = self.current_position();
        self.advance();
        self.advance();
        self.advance();
        self.column += 3;
        self.inside_comment = true;
        let end_pos = self.current_position();
        Ok(Some(Token::new(TokenType::CommentStart, Span::new(start_pos, end_pos), owned("<<<"))))
    }

    fn read_comment_end(&mut self) -> (r: LintResult<Option<Token>>)
        requires
            old(self).wf(),
            old(self).position + 2 < old(self).input@.len(),
        ensures
            final(self).wf(),
            final(self).input == old(self).input,
            (final(self).state(), outcome_view(r)) == lex_comment_end(old(self).state()),
    {
        let start_pos = self.current_position();
        self.advance();
        self.advance();
        self.advance();
        self.column += 3;
        let end_pos = self.current_position();
        Ok(Some(Token::new(TokenType::CommentEnd, Span::new(start_pos, end_pos), owned(">>>"))))
    }

    /// A token of the one character at the current position.
    fn read_single(&mut self, token_type: TokenType, raw: &str) -> (r: LintResult<Option<Token>>)
        requires
            old(self).wf(),
            old(self).position < old(self).input@.len(),
        ensures
            final(self).wf(),
            final(self).input == old(self).input,
            (final(self).state(), outcome_view(r)) == emit(cols(old(self).state(), 1), old(self).state(), token_type@, raw@),
    {
        let start_pos = self.current_position();
        self.bump();
        Ok(Some(Token::new(token_type, Span::new(start_pos, self.current_position()), owned(raw))))
    }

    fn read_tilde(&mut self) -> (r: LintResult<Option<Token>>)
        requires
            old(self).wf(),
            old(self).position < old(self).input@.len(),
        ensures
            final(self).wf(),
            final(self).input == old(self).input,
            (final(self).state(), outcome_view(r)) == lex_tilde(old(self).input@, old(self).state()),
    {
        let start_pos = self.current_position();
        self.bump();
        let tilde_end = self.current_position();
        let ghost t = self.state();
        if !self.is_at_end() && is_ascii_digit(self.current_char()) {
            while !self.is_at_end() && is_ascii_digit(self.current_char())
                invariant
                    self.wf(),
                    self.input == old(self).input,
                    self.line == t.line,
                    self.inside_comment == t.in_comment,
                    t.pos <= self.position,
                    self.column == t.col + (self.position - t.pos),
                    t == cols(old(self).state(), 1),
                    digits_end(self.input@, t.pos as int) == digits_end(self.input@, self.position as int),
                decreases self.input@.len() - self.position,
            {
                self.bump();
            }
            if !self.is_at_end() && !is_whitespace(self.current_char()) && !({
                let c = self.current_char();
                c == '(' || c == ')' || c == '[' || c == ']' || c == ':' || c == '~' || c == '"' || c == '#'
                    || c == '@' || c == '<' || c == '>'
            }) && !is_ascii_digit(self.current_char()) {
                return Err(LintError::LexerError {
                    span: Span::single_character(start_pos),
                    message: owned("Invalid characters after proximity operator. Tilde operator format should be ~5 (with proper word boundary)."),
                });
            }
            self.position -= self.current_position().offset - tilde_end.offset;
            self.column = tilde_end.column;
        }
        Ok(Some(Token::new(TokenType::Tilde, Span::new(start_pos, tilde_end), owned("~"))))
    }

    fn read_colon(&mut self) -> (r: LintResult<Option<Token>>)
        requires
            old(self).wf(),
            old(self).position < old(self).input@.len(),
        ensures
            final(self).wf(),
            final(self).input == old(self).input,
            (final(self).state(), outcome_view(r)) == lex_colon(old(self).input@, old(self).state()),
    {
        let start_pos = self.current_position();
        if self.position > 0 && is_whitespace(self.input[self.position - 1]) {
            return Err(LintError::InvalidFieldOperatorSpacing {
                span: Span::single_character(start_pos),
                message: owned("Field operator colon must be directly attached to the field name. If the colon is a search term, you'll need to put it in quote marks"),
            });
        }
        self.read_single(TokenType::Colon, ":")
    }

    fn has_word_chars_ahead(&self) -> (r: bool)
        requires
            self.wf(),
        ensures
            r == word_chars_ahead(self.input@, self.position as int),
    {
        let mut pos = self.position;
        if pos < self.input.len() && self.input[pos] == '-' {
            pos += 1;
        }
        let ghost q = pos as int;
        let ghost p0 = self.position as int;
        assert(q == (if p0 < self.input@.len() && self.input@[p0] == '-' { p0 + 1 } else { p0 }));
        while pos < self.input.len() && is_ascii_digit(self.input[pos])
            invariant
                q <= pos <= self.input@.len(),
                p0 == self.position,
                q == (if p0 < self.input@.len() && self.input@[p0] == '-' { p0 + 1 } else { p0 }),
                self.wf(),
                digits_end(self.input@, q) == digits_end(self.input@, pos as int),
            decreases self.input@.len() - pos,
        {
            pos += 1;
        }
        let ghost d = pos as int;
        assert(d == digits_end(self.input@, q));
        while pos < self.input.len()
            invariant
                d <= pos <= self.input@.len(),
                p0 == self.position,
                q == (if p0 < self.input@.len() && self.input@[p0] == '-' { p0 + 1 } else { p0 }),
                d == digits_end(self.input@, q),
                self.wf(),
                letters_from(self.input@, d) == letters_from(self.input@, pos as int),
            decreases self.input@.len() - pos,
        {
            let ch = self.input[pos];
            if is_alphabetic(ch) || ch == '*' || ch == '?' || ch == '_' || ch == '-' {
                return true;
            } else if self.is_word_boundary_char(ch) {
                return false;
            } else if self.is_word_char(ch) {
                pos += 1;
            } else {
                return false;
            }
        }
        false
    }

    /// The token at the current position, outside comments and comment markers.
    fn read_ordinary(&mut self, ch: char) -> (r: LintResult<Option<Token>>)
        requires
            old(self).wf(),
            old(self).position < old(self).input@.len(),
            ch == old(self).input@[old(self).position as int],
        ensures
            final(self).wf(),
            final(self).input == old(self).input,
            (final(self).state(), outcome_view(r)) == lex_ordinary(old(self).input@, old(self).state()),
            !(r matches Ok(None)),
            r matches Ok(Some(_)) ==> final(self).position > old(self).position,
    {
        proof {
            let input = self.input@;
            let p = self.position as int;
            lemma_word_end(input, p);
            lemma_word_end(input, p + 1);
            lemma_number_end(input, p);
            lemma_number_end(input, p + 1);
            lemma_quote_end(input, p + 1);
            let q = quote_end(input, p + 1);
            if q < input.len() {
                lemma_track_pos(input, self.state(), q + 1);
            }
        }
        let start_pos = self.current_position();
        if ch == ' ' || ch == '\t' || ch == '\r' || ch == '\n' {
            self.advance_with_position_tracking(ch);
            let end_pos = self.current_position();
            Ok(Some(Token::new(TokenType::Whitespace, Span::new(start_pos, end_pos), string_of_char(ch))))
        } else if ch == '"' {
            self.read_quoted_string()
        } else if ch == '(' {
            self.read_single(TokenType::LeftParen, "(")
        } else if ch == ')' {
            self.read_single(TokenType::RightParen, ")")
        } else if ch == '[' {
            self.read_single(TokenType::LeftBracket, "[")
        } else if ch == ']' {
            self.read_single(TokenType::RightBracket, "]")
        } else if ch == '{' {
            self.read_single(TokenType::LeftBrace, "{")
        } else if ch == '}' {
            self.read_single(TokenType::RightBrace, "}")
        } else if ch == '~' {
            self.read_tilde()
        } else if ch == ':' {
            self.read_colon()
        } else if ch == '#' {
            self.read_hashtag()
        } else if ch == '@' {
            self.read_mention()
        } else if is_ascii_digit(ch) || ch == '-' {
            let numeric = is_numeric(ch);
            assert(ch == '-' || numeric);
            if self.has_word_chars_ahead() {
                self.read_word_or_operator()
            } else {
                self.read_number()
            }
        } else if self.is_word_char(ch) {
            self.read_word_or_operator()
        } else {
            self.bump();
            let mut message = owned("Unexpected character '");
            push_char(&mut message, ch);
            crate::text::push_str(&mut message, "'");
            assert(message@ =~= "Unexpected character '"@ + seq![ch] + "'"@);
            Err(LintError::LexerError { span: Span::single_character(start_pos), message })
        }
    }

    fn handle_comment_transition(&mut self, ch: char) -> (r: LintResult<Option<Token>>)
        requires
            old(self).wf(),
            old(self).position < old(self).input@.len(),
            ch == old(self).input@[old(self).position as int],
        ensures
            final(self).wf(),
            final(self).input == old(self).input,
            (final(self).state(), outcome_view(r)) == comment_transition(old(self).input@, old(self).state()),
            r matches Ok(None) ==> final(self).inside_comment == old(self).inside_comment,
            r matches Ok(None) && final(self).inside_comment ==> final(self).position >= final(self).input@.len(),
            r matches Ok(None) && !final(self).inside_comment ==> final(self).state() == old(self).state(),
            r matches Ok(Some(_)) ==> final(self).position > old(self).position,
        decreases old(self).input@.len() - old(self).position, 0nat,
    {
        proof {
            reveal_strlit(">>");
            reveal_strlit("<<");
        }
        if self.inside_comment {
            let gt = self.peek_ahead(2);
            if ch == '>' && str_eq(gt.as_str(), ">>") {
                assert(gt@.len() == 2);
                self.inside_comment = false;
                return self.read_comment_end();
            } else {
                self.advance_with_position_tracking(ch);
                return self.next_token();
            }
        } else {
            let lt = self.peek_ahead(2);
            if ch == '<' && str_eq(lt.as_str(), "<<") {
                assert(lt@.len() == 2);
                return self.read_comment_start();
            } else if ch == '>' && str_eq(lt.as_str(), ">>") {
                assert(lt@.len() == 2);
                return self.read_comment_end();
            }
        }
        Ok(None)
    }

    fn next_token(&mut self) -> (r: LintResult<Option<Token>>)
        requires
            old(self).wf(),
        ensures
            final(self).wf(),
            final(self).input == old(self).input,
            (final(self).state(), outcome_view(r)) == next_token_spec(old(self).input@, old(self).state()),
            r matches Ok(None) ==> final(self).position >= final(self).input@.len(),
            r matches Ok(None) ==> final(self).inside_comment == old(self).inside_comment,
            r matches Ok(Some(_)) ==> final(self).position > old(self).position,
        decreases old(self).input@.len() - old(self).position, 1nat,
    {
        if self.is_at_end() {
            return Ok(None);
        }
        let ch = self.current_char();
        match self.handle_comment_transition(ch) {
            Err(e) => return Err(e),
            Ok(Some(token)) => return Ok(Some(token)),
            Ok(None) => {},
        }
        if self.inside_comment {
            return self.next_token();
        }
        self.read_ordinary(ch)
    }

    /// The tokens of the query, whitespace left out, ending with the end-of-input token.
    pub fn tokenize(&mut self) -> (r: LintResult<Vec<Token>>)
        requires
            old(self).wf(),
        ensures
            r matches Ok(ts) ==> tokens_bounded(tokens_view(ts@)),
            match r {
                Ok(ts) => tokenize_spec(old(self).chars(), old(self).state()) == Ok::<Seq<TokenView>, LintErrorView>(tokens_view(ts@)),
                Err(e) => tokenize_spec(old(self).chars(), old(self).state()) == Err::<Seq<TokenView>, LintErrorView>(e@),
            },
    {
        let mut tokens: Vec<Token> = Vec::new();
        let ghost input = self.input@;
        let ghost st0 = self.state();
        while !self.is_at_end()
            invariant
                self.wf(),
                self.input@ == input,
                input == old(self).input@,
                st0 == old(self).state(),
                tokens_from(input, st0) == match tokens_from(input, self.state()) {
                    Ok((ts, fin)) => Ok((tokens_view(tokens@) + ts, fin)),
                    Err(e) => Err(e),
                },
                tokens_bounded(tokens_view(tokens@)),
            ensures
                self.position >= self.input@.len(),
            decreases input.len() - self.position,
        {
            let ghost before = self.state();
            let ghost old_tokens = tokens@;
            match self.next_token() {
                Err(e) => {
                    return Err(e);
                },
                Ok(Some(token)) => {
                    proof {
                        lemma_token_end(input, before);
                        assert(pos_bounded(token@.span.end));
                    }
                    if !matches!(token.token_type, TokenType::Whitespace) {
                        tokens.push(token);
                        assert(tokens_view(tokens@) =~= tokens_view(old_tokens).push(token@));
                    }
                    proof {
                        match tokens_from(input, self.state()) {
                            Ok((ts, fin)) => {
                                assert(tokens_view(tokens@) + ts =~= tokens_view(old_tokens) + (if token@.kind is Whitespace { ts } else { seq![token@] + ts }));
                            },
                            Err(e) => {},
                        }
                    }
                },
                Ok(None) => {
                    assert(tokens_view(tokens@) + Seq::<TokenView>::empty() =~= tokens_view(tokens@));
                    break;
                },
            }
        }
        proof {
            assert(tokens_from(input, self.state()) == Ok::<(Seq<TokenView>, LexState), LintErrorView>((Seq::<TokenView>::empty(), self.state())));
            assert(tokens_view(tokens@) + Seq::<TokenView>::empty() =~= tokens_view(tokens@));
        }
        let eof_pos = self.current_position();
        let ghost pre = tokens@;
        tokens.push(Token::new(TokenType::Eof, Span::single(eof_pos), String::new()));
        assert(tokens_view(tokens@) =~= tokens_view(pre).push(eof_token(self.state())));
        Ok(tokens)
    }
}

} // verus!
