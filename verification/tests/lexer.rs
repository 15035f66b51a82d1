use simplidb::lexer::{tokenize, LexError, LexErrorKind};
use simplidb::token::Token;

#[test]
fn test_parens() {
    assert_eq!(tokenize("()").unwrap(), vec![Token::Parens(vec![])]);
    assert_eq!(
        tokenize("(())").unwrap(),
        vec![Token::Parens(vec![Token::Parens(vec![])])]
    );
    assert_eq!(
        tokenize(r#"(")(")"#).unwrap(),
        vec![Token::Parens(vec![Token::Literal(")(".to_owned())])]
    );
}

#[test]
fn test_unmatched_paren() {
    assert_eq!(
        tokenize("()(").unwrap_err(),
        LexError {
            kind: LexErrorKind::UnmatchedParen,
            pos: 2,
        }
    );
}

#[test]
fn test_comma() {
    assert_eq!(
        tokenize(r#""a",,"b""#).unwrap(),
        vec![
            Token::Literal("a".to_owned()),
            Token::Comma,
            Token::Comma,
            Token::Literal("b".to_owned())
        ]
    )
}

#[test]
fn test_whitespace() {
    assert_eq!(
        tokenize(" \t\n\" a\t\n \"\t\n ").unwrap(),
        vec![Token::Literal(" a\t\n ".to_owned())]
    )
}

#[test]
fn test_identifier() {
    assert_eq!(
        tokenize("id").unwrap(),
        vec![Token::Identifier("id".to_owned())]
    )
}

#[test]
fn test_line_comment() {
    assert_eq!(
        tokenize("id1--id2\nid3").unwrap(),
        vec![
            Token::Identifier("id1".to_owned()),
            Token::Identifier("id3".to_owned())
        ]
    )
}

#[test]
fn test_keywords() {
    assert_eq!(
        tokenize("SELECT x,y FROM t1 LEFT JOIN t2 JOIN t3").unwrap(),
        vec![
            Token::Keyword("SELECT".to_owned()),
            Token::Identifier("x".to_owned()),
            Token::Comma,
            Token::Identifier("y".to_owned()),
            Token::Keyword("FROM".to_owned()),
            Token::Identifier("t1".to_owned()),
            Token::Keyword("LEFT JOIN".to_owned()),
            Token::Identifier("t2".to_owned()),
            Token::Keyword("JOIN".to_owned()),
            Token::Identifier("t3".to_owned()),
        ]
    );
}

#[test]
fn test_keyword_case_insensitive() {
    for spelling in ["select", "SELECT", "SeLeCt"] {
        assert_eq!(
            tokenize(spelling).unwrap(),
            vec![Token::Keyword("SELECT".to_owned())]
        );
    }
}

#[test]
fn test_keyword_text_retokenizes() {
    for phrase in ["SELECT", "FROM", "WHERE", "LEFT JOIN", "JOIN"] {
        assert_eq!(
            tokenize(phrase).unwrap(),
            vec![Token::Keyword(phrase.to_owned())]
        );
    }
}

#[test]
fn test_block_comment() {
    assert_eq!(
        tokenize("/* abc */id").unwrap(),
        vec![Token::Identifier("id".to_owned())]
    );
}

#[test]
fn test_block_comment_empty_body_rejected() {
    assert_eq!(
        tokenize("/**/").unwrap_err(),
        LexError {
            kind: LexErrorKind::UnrecognizedCharacter,
            pos: 0,
        }
    );
}

#[test]
fn test_block_comment_star_in_body_rejected() {
    assert_eq!(
        tokenize("/* a*b */").unwrap_err(),
        LexError {
            kind: LexErrorKind::UnrecognizedCharacter,
            pos: 0,
        }
    );
}

#[test]
fn test_unterminated_literal() {
    assert_eq!(
        tokenize("\"abc").unwrap_err(),
        LexError {
            kind: LexErrorKind::UnterminatedLiteral,
            pos: 0,
        }
    );
}

#[test]
fn test_unrecognized_character() {
    assert_eq!(
        tokenize("id + 1").unwrap_err(),
        LexError {
            kind: LexErrorKind::UnrecognizedCharacter,
            pos: 3,
        }
    );
}

#[test]
fn test_stray_closing_paren() {
    assert_eq!(
        tokenize(")").unwrap_err(),
        LexError {
            kind: LexErrorKind::TrailingInput,
            pos: 0,
        }
    );
}

#[test]
fn test_unicode_identifier() {
    assert_eq!(
        tokenize("café").unwrap(),
        vec![Token::Identifier("café".to_owned())]
    );
}

#[test]
fn test_nesting_depth_matches_parens() {
    assert_eq!(
        tokenize("()(())").unwrap(),
        vec![
            Token::Parens(vec![]),
            Token::Parens(vec![Token::Parens(vec![])]),
        ]
    );
    assert!(tokenize("(()").is_err());
    assert!(tokenize("(").is_err());
}
