use bwq_linter::lexer::{Lexer, TokenType};

fn tokens_of(query: &str) -> Vec<bwq_linter::lexer::Token> {
    let mut lexer = Lexer::new(query);
    lexer.tokenize().unwrap()
}

#[test]
fn lexer_test_basic_tokenization() {
    let tokens = tokens_of("apple AND juice");

    assert_eq!(tokens.len(), 4);
    assert!(matches!(tokens[0].token_type, TokenType::Word(ref w) if w == "apple"));
    assert!(matches!(tokens[1].token_type, TokenType::And));
    assert!(matches!(tokens[2].token_type, TokenType::Word(ref w) if w == "juice"));
    assert!(matches!(tokens[3].token_type, TokenType::Eof));
}

#[test]
fn lexer_test_quoted_string() {
    let tokens = tokens_of("\"apple juice\" \" phrase with spaces \"");
    assert_eq!(tokens.len(), 3);
    assert!(matches!(tokens[0].token_type, TokenType::QuotedString(ref s) if s == "apple juice"));
    assert!(matches!(tokens[1].token_type, TokenType::QuotedString(ref s) if s == " phrase with spaces "));

    let tokens = tokens_of("\"apple juice\"");
    assert_eq!(tokens.len(), 2);
    assert!(matches!(tokens[0].token_type, TokenType::QuotedString(ref s) if s == "apple juice"));
}

#[test]
fn lexer_test_proximity_operators() {
    let tokens = tokens_of("NEAR/5 NEAR/3f");

    assert_eq!(tokens.len(), 3);
    assert!(matches!(tokens[0].token_type, TokenType::Near(5)));
    assert!(matches!(tokens[1].token_type, TokenType::NearForward(3)));
}

#[test]
fn lexer_test_numbers_vs_words_and_special_chars() {
    let tokens = tokens_of(
        "42 3.14 -5 0xcharlie 18RahulJoshi user123 $UBER U&BER uber$ 123$abc test+word word%test test=word word`test 5test|word test@word",
    );

    assert_eq!(tokens.len(), 17);

    assert!(matches!(tokens[0].token_type, TokenType::Number(ref n) if n == "42"));
    assert!(matches!(tokens[1].token_type, TokenType::Number(ref n) if n == "3.14"));
    assert!(matches!(tokens[2].token_type, TokenType::Number(ref n) if n == "-5"));

    assert!(matches!(tokens[3].token_type, TokenType::Word(ref w) if w == "0xcharlie"));
    assert!(matches!(tokens[4].token_type, TokenType::Word(ref w) if w == "18RahulJoshi"));
    assert!(matches!(tokens[5].token_type, TokenType::Word(ref w) if w == "user123"));

    assert!(matches!(tokens[6].token_type, TokenType::Word(ref w) if w == "$UBER"));
    assert!(matches!(tokens[7].token_type, TokenType::Word(ref w) if w == "U&BER"));
    assert!(matches!(tokens[8].token_type, TokenType::Word(ref w) if w == "uber$"));
    assert!(matches!(tokens[9].token_type, TokenType::Word(ref w) if w == "123$abc"));

    assert!(matches!(tokens[10].token_type, TokenType::Word(ref w) if w == "test+word"));
    assert!(matches!(tokens[11].token_type, TokenType::Word(ref w) if w == "word%test"));
    assert!(matches!(tokens[12].token_type, TokenType::Word(ref w) if w == "test=word"));
    assert!(matches!(tokens[13].token_type, TokenType::Word(ref w) if w == "word`test"));
    assert!(matches!(tokens[14].token_type, TokenType::Word(ref w) if w == "5test|word"));
    assert!(matches!(tokens[15].token_type, TokenType::Word(ref w) if w == "test@word"));

    assert!(matches!(tokens[16].token_type, TokenType::Eof));

    let tokens = tokens_of("42 3.14 -5 0xcharlie 18RahulJoshi user123 $UBER U$BER uber$ 123$abc -5$test");

    assert_eq!(tokens.len(), 12);
    assert!(matches!(tokens[0].token_type, TokenType::Number(ref n) if n == "42"));
    assert!(matches!(tokens[1].token_type, TokenType::Number(ref n) if n == "3.14"));
    assert!(matches!(tokens[2].token_type, TokenType::Number(ref n) if n == "-5"));
    assert!(matches!(tokens[3].token_type, TokenType::Word(ref w) if w == "0xcharlie"));
    assert!(matches!(tokens[4].token_type, TokenType::Word(ref w) if w == "18RahulJoshi"));
    assert!(matches!(tokens[5].token_type, TokenType::Word(ref w) if w == "user123"));
    assert!(matches!(tokens[6].token_type, TokenType::Word(ref w) if w == "$UBER"));
    assert!(matches!(tokens[7].token_type, TokenType::Word(ref w) if w == "U$BER"));
    assert!(matches!(tokens[8].token_type, TokenType::Word(ref w) if w == "uber$"));
    assert!(matches!(tokens[9].token_type, TokenType::Word(ref w) if w == "123$abc"));
    assert!(matches!(tokens[10].token_type, TokenType::Word(ref w) if w == "-5$test"));
    assert!(matches!(tokens[11].token_type, TokenType::Eof));
}

#[test]
fn test_numeric_wildcards() {
    let tokens = tokens_of("24* 12? 100*test");

    assert_eq!(tokens.len(), 4);
    assert!(matches!(tokens[0].token_type, TokenType::Word(ref w) if w == "24*"));
    assert!(matches!(tokens[1].token_type, TokenType::Word(ref w) if w == "12?"));
    assert!(matches!(tokens[2].token_type, TokenType::Word(ref w) if w == "100*test"));
    assert!(matches!(tokens[3].token_type, TokenType::Eof));
}

#[test]
fn lexer_spans_count_lines_and_columns() {
    let tokens = tokens_of("apple\n  juice");
    assert_eq!(tokens.len(), 3);
    assert_eq!((tokens[0].span.start.line, tokens[0].span.start.column, tokens[0].span.start.offset), (1, 1, 0));
    assert_eq!((tokens[0].span.end.line, tokens[0].span.end.column, tokens[0].span.end.offset), (1, 6, 5));
    assert_eq!((tokens[1].span.start.line, tokens[1].span.start.column, tokens[1].span.start.offset), (2, 3, 8));
    assert_eq!(tokens[1].raw, "juice");
    assert_eq!((tokens[2].span.start.offset, tokens[2].span.end.offset), (13, 13));
}

#[test]
fn lexer_comment_markers_and_hidden_text() {
    let tokens = tokens_of("a <<<hidden text>>> b");
    let kinds: Vec<bool> = tokens.iter().map(|t| matches!(t.token_type, TokenType::CommentStart | TokenType::CommentEnd)).collect();
    assert_eq!(tokens.len(), 5);
    assert_eq!(kinds, vec![false, true, true, false, false]);
    assert!(matches!(tokens[3].token_type, TokenType::Word(ref w) if w == "b"));
}

#[test]
fn lexer_errors() {
    let mut lexer = Lexer::new("\"open");
    let e = lexer.tokenize().unwrap_err();
    assert_eq!(e.code(), "E001");
    assert_eq!(e.message(), "Unterminated quoted string");
    assert_eq!(e.span().start.offset, 0);
    assert_eq!(e.span().end.offset, 1);

    let mut lexer = Lexer::new("apple~5t");
    let e = lexer.tokenize().unwrap_err();
    assert_eq!(e.code(), "E001");

    let mut lexer = Lexer::new("subreddit : nba");
    let e = lexer.tokenize().unwrap_err();
    assert_eq!(e.code(), "E001");
    assert_eq!(e.span().start.offset, 10);

    let mut lexer = Lexer::new("a ! b");
    let e = lexer.tokenize().unwrap_err();
    assert_eq!(e.message(), "Unexpected character '!'");
}

#[test]
fn lexer_token_descriptions() {
    assert_eq!(TokenType::Word("x".to_string()).describe(), "word 'x'");
    assert_eq!(TokenType::Near(12).describe(), "NEAR/12");
    assert_eq!(TokenType::NearForward(0).describe(), "NEAR/0f");
    assert_eq!(TokenType::Eof.describe(), "end of file");
    assert_eq!(TokenType::LeftBrace.describe(), "{");
}

#[test]
fn lexer_near_without_number_is_a_word() {
    let tokens = tokens_of("NEAR/ NEAR/x NEAR/99999999999");
    assert!(matches!(tokens[0].token_type, TokenType::Word(ref w) if w == "NEAR/"));
    assert!(matches!(tokens[1].token_type, TokenType::Word(ref w) if w == "NEAR/x"));
    assert!(matches!(tokens[2].token_type, TokenType::Word(ref w) if w == "NEAR/99999999999"));
}
