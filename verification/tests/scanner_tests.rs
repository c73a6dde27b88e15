use gaur::iterator::{TokenError, TokenOutput, TokenStreamer};
use gaur::scanner::{Scanner, SourceEnd};
use gaur::tokens::{Token, TokenType};

fn expect_token(out: TokenOutput) -> Token {
    match out {
        TokenOutput::Token(t) => t,
        TokenOutput::Eof => panic!("expected a token, got end-of-input"),
        TokenOutput::Error(e) => panic!("expected a token, got {:?}", e),
    }
}

#[test]
fn longest_match_keeps_identifier_whole() {
    // "token" before a non-identifier byte is one Identifier token
    let mut scanner = Scanner::from_bufreader(b"token:".to_vec());
    let t = expect_token(scanner.next());
    assert!(matches!(t.token_type(), TokenType::Identifier));
    assert_eq!(t.text(), &b"token".to_vec());
}

#[test]
fn directive_wins_over_punctuation_and_fragments() {
    // "%token" is the directive keyword, not '%' plus an identifier
    let mut scanner = Scanner::from_bufreader(b"%token".to_vec());
    let t = expect_token(scanner.next());
    assert!(matches!(t.token_type(), TokenType::Token));
    assert_eq!(t.text(), &b"%token".to_vec());
    assert!(matches!(scanner.next(), TokenOutput::Eof));
}

#[test]
fn trivia_only_input_yields_immediate_eof() {
    let mut streamer = TokenStreamer::from_bufreader(b" \t/* hi */\n/* there */ \r".to_vec());
    assert!(matches!(streamer.next_token(), TokenOutput::Eof));
    // exhaustion repeats; it is not an error state
    assert!(matches!(streamer.next_token(), TokenOutput::Eof));
}

#[test]
fn unrecognized_input_reports_the_offending_offset() {
    let mut scanner = Scanner::from_bufreader(b"&".to_vec());
    match scanner.next() {
        TokenOutput::Error(TokenError::Unrecognized(offset)) => assert_eq!(offset, 0),
        other => panic!("expected unrecognized input, got {:?}", other),
    }
    // the cursor stays at the offending offset: the same report again
    match scanner.next() {
        TokenOutput::Error(TokenError::Unrecognized(offset)) => assert_eq!(offset, 0),
        other => panic!("expected unrecognized input, got {:?}", other),
    }
}

#[test]
fn unrecognized_offset_counts_consumed_tokens() {
    let mut streamer = TokenStreamer::from_bufreader(b"a &".to_vec());
    let t = expect_token(streamer.next_token());
    assert!(matches!(t.token_type(), TokenType::Identifier));
    match streamer.next_token() {
        TokenOutput::Error(TokenError::Unrecognized(offset)) => assert_eq!(offset, 2),
        other => panic!("expected unrecognized input, got {:?}", other),
    }
}

#[test]
fn io_failure_is_sticky() {
    let mut scanner = Scanner::from_source(Vec::new(), SourceEnd::ReadError);
    assert!(matches!(scanner.next(), TokenOutput::Error(TokenError::Io)));
    assert!(matches!(scanner.next(), TokenOutput::Error(TokenError::Io)));
}

#[test]
fn io_failure_is_sticky_through_the_streamer() {
    let mut streamer = TokenStreamer::from_source(b" ".to_vec(), SourceEnd::ReadError);
    assert!(matches!(streamer.next_token(), TokenOutput::Error(TokenError::Io)));
    assert!(matches!(streamer.next_token(), TokenOutput::Error(TokenError::Io)));
}

#[test]
fn match_reaching_failed_buffer_end_is_not_emitted() {
    // "abc" may continue past the failed read, so no token is guessed
    let mut scanner = Scanner::from_source(b"abc".to_vec(), SourceEnd::ReadError);
    assert!(matches!(scanner.next(), TokenOutput::Error(TokenError::Io)));
}

#[test]
fn match_ending_before_failed_buffer_end_is_emitted() {
    let mut scanner = Scanner::from_source(b"abc ".to_vec(), SourceEnd::ReadError);
    let t = expect_token(scanner.next());
    assert!(matches!(t.token_type(), TokenType::Identifier));
    assert_eq!(t.text(), &b"abc".to_vec());
    // the trailing whitespace reaches the failed end: the failure surfaces
    assert!(matches!(scanner.next(), TokenOutput::Error(TokenError::Io)));
}

#[test]
fn numeric_literals_lex_as_single_full_tokens() {
    for literal in [&b"0"[..], &b"0x1A"[..], &b"0777"[..], &b"123"[..]] {
        let mut scanner = Scanner::from_bufreader(literal.to_vec());
        let t = expect_token(scanner.next());
        assert!(matches!(t.token_type(), TokenType::Number));
        assert_eq!(t.text(), &literal.to_vec());
        assert!(matches!(scanner.next(), TokenOutput::Eof));
    }
}

#[test]
fn newline_escape_char_const_spans_four_bytes() {
    let mut scanner = Scanner::from_bufreader(b"'\\n'".to_vec());
    let t = expect_token(scanner.next());
    assert!(matches!(t.token_type(), TokenType::CharConst));
    assert_eq!(t.text(), &b"'\\n'".to_vec());
    assert!(matches!(scanner.next(), TokenOutput::Eof));
}

#[test]
fn token_texts_concatenate_back_to_the_input() {
    let input = b"%token NUM\n%{ /* prologue */\n%%\nexpr : NUM '+' NUM ;\n".to_vec();
    let mut scanner = Scanner::from_bufreader(input.clone());
    let mut rebuilt: Vec<u8> = Vec::new();
    loop {
        match scanner.next() {
            TokenOutput::Token(t) => rebuilt.extend_from_slice(t.text()),
            TokenOutput::Eof => break,
            TokenOutput::Error(e) => panic!("scan failed: {:?}", e),
        }
    }
    assert_eq!(rebuilt, input);
}

#[test]
fn streamer_filters_trivia_and_keeps_order() {
    let input = b"%token NUM /* c */\n%%\nexpr : NUM | NUM ;\n".to_vec();
    let mut streamer = TokenStreamer::from_bufreader(input);
    let expected: Vec<(TokenType, &[u8])> = vec![
        (TokenType::Token, b"%token"),
        (TokenType::Identifier, b"NUM"),
        (TokenType::PercentPercent, b"%%"),
        (TokenType::Identifier, b"expr"),
        (TokenType::Colon, b":"),
        (TokenType::Identifier, b"NUM"),
        (TokenType::Pipe, b"|"),
        (TokenType::Identifier, b"NUM"),
        (TokenType::Semi, b";"),
    ];
    for (kind, text) in expected {
        let t = expect_token(streamer.next_token());
        assert_eq!(t.token_type() as usize, kind as usize);
        assert_eq!(t.text(), &text.to_vec());
    }
    assert!(matches!(streamer.next_token(), TokenOutput::Eof));
}

#[test]
fn block_openers_and_union_tag_lex_exactly() {
    let mut streamer = TokenStreamer::from_bufreader(b"%{ { < %% %prec".to_vec());
    assert!(matches!(expect_token(streamer.next_token()).token_type(), TokenType::PercentBlock));
    assert!(matches!(expect_token(streamer.next_token()).token_type(), TokenType::CodeBlock));
    assert!(matches!(expect_token(streamer.next_token()).token_type(), TokenType::UnionTag));
    assert!(matches!(expect_token(streamer.next_token()).token_type(), TokenType::PercentPercent));
    assert!(matches!(expect_token(streamer.next_token()).token_type(), TokenType::Prec));
    assert!(matches!(streamer.next_token(), TokenOutput::Eof));
}

#[test]
fn partial_directive_is_unrecognized() {
    // '%' opens several patterns but completes none
    let mut scanner = Scanner::from_bufreader(b"%t ".to_vec());
    match scanner.next() {
        TokenOutput::Error(TokenError::Unrecognized(offset)) => assert_eq!(offset, 0),
        other => panic!("expected unrecognized input, got {:?}", other),
    }
}

#[test]
fn comment_token_is_non_greedy_in_the_stream() {
    let mut scanner = Scanner::from_bufreader(b"/* a */ b /* c */".to_vec());
    let t = expect_token(scanner.next());
    assert!(matches!(t.token_type(), TokenType::Comment));
    assert_eq!(t.text(), &b"/* a */".to_vec());
}
