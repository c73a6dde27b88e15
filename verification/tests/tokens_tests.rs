use gaur::matching::kind_match_len;
use gaur::tokens::TokenType;

#[test]
fn token_type_iterator_same_as_usize() {
    for (i, token_type) in TokenType::all().into_iter().enumerate() {
        assert_eq!(i, token_type as usize);
    }
}

#[test]
fn no_token_matches_empty_string() {
    let empty: Vec<u8> = Vec::new();
    for token_type in TokenType::all() {
        assert_eq!(kind_match_len(token_type, &empty, 0), 0);
    }
}

#[test]
fn pattern_lookup_returns_the_registry_patterns() {
    assert_eq!(TokenType::Token.pattern(), "%token");
    assert_eq!(TokenType::Left.pattern(), "%left");
    assert_eq!(TokenType::Right.pattern(), "%right");
    assert_eq!(TokenType::NonAssoc.pattern(), "%nonassoc");
    assert_eq!(TokenType::Type.pattern(), "%type");
    assert_eq!(TokenType::Start.pattern(), "%start");
    assert_eq!(TokenType::Union.pattern(), "%union");
    assert_eq!(TokenType::Prec.pattern(), "%prec");
    assert_eq!(TokenType::PercentPercent.pattern(), "%%");
    assert_eq!(TokenType::Colon.pattern(), ":");
    assert_eq!(TokenType::Semi.pattern(), ";");
    assert_eq!(TokenType::Pipe.pattern(), "\\|");
    assert_eq!(TokenType::PercentBlock.pattern(), "%\\{");
    assert_eq!(TokenType::CodeBlock.pattern(), "\\{");
    assert_eq!(TokenType::UnionTag.pattern(), "<");
    assert_eq!(TokenType::Identifier.pattern(), "[_.a-zA-Z][_.0-9a-zA-Z]*");
    assert_eq!(
        TokenType::Number.pattern(),
        "(0[xX][0-9a-fA-F]*)|(0[0-7]*)|([1-9][0-9]*)"
    );
    assert_eq!(TokenType::Comment.pattern(), "(?s:/\\*.*?\\*/)");
    assert_eq!(TokenType::Whitespace.pattern(), "[ \\f\\n\\r\\t]+");
}

#[test]
fn registry_has_twenty_kinds_in_declaration_order() {
    let kinds = TokenType::all();
    assert_eq!(kinds.len(), 20);
    assert!(matches!(kinds[0], TokenType::Token));
    assert!(matches!(kinds[8], TokenType::PercentPercent));
    assert!(matches!(kinds[15], TokenType::Identifier));
    assert!(matches!(kinds[19], TokenType::Whitespace));
}

#[test]
fn kind_match_len_takes_longest_prefix() {
    let text = b"token%".to_vec();
    assert_eq!(kind_match_len(TokenType::Identifier, &text, 0), 5);
    assert_eq!(kind_match_len(TokenType::Token, &text, 0), 0);

    let directive = b"%token rest".to_vec();
    assert_eq!(kind_match_len(TokenType::Token, &directive, 0), 6);
    assert_eq!(kind_match_len(TokenType::Identifier, &directive, 0), 0);
    assert_eq!(kind_match_len(TokenType::Identifier, &directive, 1), 5);
}

#[test]
fn comment_match_is_non_greedy() {
    let text = b"/* a */ b /* c */".to_vec();
    assert_eq!(kind_match_len(TokenType::Comment, &text, 0), 7);
    let open = b"/* never closed".to_vec();
    assert_eq!(kind_match_len(TokenType::Comment, &open, 0), 0);
}

#[test]
fn char_const_forms_match_their_full_spans() {
    // '\u0041' and '\U00000041'
    assert_eq!(kind_match_len(TokenType::CharConst, &b"'\\u0041'".to_vec(), 0), 8);
    assert_eq!(kind_match_len(TokenType::CharConst, &b"'\\U00000041'".to_vec(), 0), 12);
    // '\x41' with a trailing quote ends after the digits
    assert_eq!(kind_match_len(TokenType::CharConst, &b"'\\x41'".to_vec(), 0), 6);
    // '\101' octal
    assert_eq!(kind_match_len(TokenType::CharConst, &b"'\\101'".to_vec(), 0), 6);
    // '\7' short octal
    assert_eq!(kind_match_len(TokenType::CharConst, &b"'\\7'".to_vec(), 0), 4);
    // plain 'a'
    assert_eq!(kind_match_len(TokenType::CharConst, &b"'a'".to_vec(), 0), 3);
    // a lone quote matches nothing
    assert_eq!(kind_match_len(TokenType::CharConst, &b"'".to_vec(), 0), 0);
    // '' is not a constant
    assert_eq!(kind_match_len(TokenType::CharConst, &b"''".to_vec(), 0), 0);
}

#[test]
fn number_forms_match_their_full_spans() {
    assert_eq!(kind_match_len(TokenType::Number, &b"0".to_vec(), 0), 1);
    assert_eq!(kind_match_len(TokenType::Number, &b"0x1A".to_vec(), 0), 4);
    assert_eq!(kind_match_len(TokenType::Number, &b"0777".to_vec(), 0), 4);
    assert_eq!(kind_match_len(TokenType::Number, &b"123".to_vec(), 0), 3);
    // the hex opener alone is a number under the hex disjunct
    assert_eq!(kind_match_len(TokenType::Number, &b"0x".to_vec(), 0), 2);
    // octal digits stop at 8
    assert_eq!(kind_match_len(TokenType::Number, &b"078".to_vec(), 0), 2);
}
