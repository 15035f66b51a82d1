use simplidb::lexer::{LexError, LexErrorKind};
use simplidb::parser::{parse, DataSource, SelectExpression, SqlParseError};
use simplidb::token::Token;

#[test]
fn test_select_from() {
    assert_eq!(
        parse("SELECT x FROM t").unwrap(),
        SelectExpression {
            columns: vec!["x".to_owned()],
            source: DataSource::Datastore {
                name: "t".to_owned()
            }
        }
    );
}

#[test]
fn test_select_case_preserved() {
    assert_eq!(
        parse("select Col FROM MyTable").unwrap(),
        SelectExpression {
            columns: vec!["Col".to_owned()],
            source: DataSource::Datastore {
                name: "MyTable".to_owned()
            }
        }
    );
}

#[test]
fn test_missing_column_name() {
    assert_eq!(
        parse("SELECT FROM t").unwrap_err(),
        SqlParseError::IdentifierNotMatched
    );
}

#[test]
fn test_trailing_tokens() {
    assert_eq!(
        parse("SELECT x FROM t EXTRA").unwrap_err(),
        SqlParseError::RemainingTokens(vec![Token::Identifier("EXTRA".to_owned())])
    );
}

#[test]
fn test_missing_select_keyword() {
    assert_eq!(
        parse("x FROM t").unwrap_err(),
        SqlParseError::KeywordNotMatched("SELECT".to_owned())
    );
}

#[test]
fn test_missing_from_keyword() {
    assert_eq!(
        parse("SELECT x WHERE t").unwrap_err(),
        SqlParseError::KeywordNotMatched("FROM".to_owned())
    );
}

#[test]
fn test_unexpected_end() {
    assert_eq!(parse("SELECT x FROM").unwrap_err(), SqlParseError::Eof);
    assert_eq!(parse("").unwrap_err(), SqlParseError::Eof);
}

#[test]
fn test_lex_error_surfaces() {
    assert_eq!(
        parse("SELECT x FROM (").unwrap_err(),
        SqlParseError::Lexical(LexError {
            kind: LexErrorKind::UnmatchedParen,
            pos: 14,
        })
    );
}

#[test]
fn test_parens_group_is_not_an_identifier() {
    assert_eq!(
        parse("SELECT x FROM (t)").unwrap_err(),
        SqlParseError::IdentifierNotMatched
    );
}

#[test]
fn test_error_messages() {
    assert_eq!(
        SqlParseError::Eof.message(),
        "unexpected end of token stream"
    );
    assert_eq!(
        SqlParseError::KeywordNotMatched("SELECT".to_owned()).message(),
        "keyword not matched: SELECT"
    );
    assert_eq!(
        SqlParseError::IdentifierNotMatched.message(),
        "identifier not matched"
    );
    assert_eq!(
        SqlParseError::RemainingTokens(vec![]).message(),
        "there are remaining tokens that were not parsed"
    );
    assert_eq!(
        SqlParseError::Lexical(LexError {
            kind: LexErrorKind::UnterminatedLiteral,
            pos: 0,
        })
        .message(),
        "unterminated string literal"
    );
}
