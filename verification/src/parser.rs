//! The recursive-descent parser: a token sequence to a `SelectExpression`.
//!
//! The grammar is a strict sequence with no backtracking:
//! `SELECT <identifier> FROM <identifier>`, after which no token may remain.
//! The data model is wider than the grammar: `columns` may hold several
//! names and a `DataSource` may nest a sub-query, but the grammar only ever
//! builds the single-column, single-table form.

use vstd::prelude::*;
use vstd::string::StringExecFns;

use crate::keywords::chars_eq_ic;
use crate::lexer::{spec_tokenize, tokenize, LexError, LexErrorKind};
use crate::token::{clone_token, tokens_view, Token, TokenView};

verus! {

/// A parsed query: the projected column names and the source they are drawn
/// from.
#[derive(Debug, PartialEq)]
pub struct SelectExpression {
    pub columns: Vec<String>,
    pub source: DataSource,
}

/// Where a query reads from: a named external table, or a nested sub-query.
#[derive(Debug, PartialEq)]
pub enum DataSource {
    Datastore { name: String },
    SelectExpression(Box<SelectExpression>),
}

/// A parse failure.
#[derive(Debug, PartialEq)]
pub enum SqlParseError {
    /// The token stream ended where a token was expected.
    Eof,
    /// The named keyword was expected and not found.
    KeywordNotMatched(String),
    /// An identifier was expected and not found.
    IdentifierNotMatched,
    /// The grammar matched, but these tokens were left over.
    RemainingTokens(Vec<Token>),
    /// The input could not be tokenized at all.
    Lexical(LexError),
}

/// The abstraction of a `SqlParseError`.
pub enum ParseErrView {
    Eof,
    KeywordNotMatched(Seq<char>),
    IdentifierNotMatched,
    RemainingTokens(Seq<TokenView>),
    Lexical(LexError),
}

impl View for SqlParseError {
    type V = ParseErrView;

    open spec fn view(&self) -> ParseErrView {
        match self {
            SqlParseError::Eof => ParseErrView::Eof,
            SqlParseError::KeywordNotMatched(w) => ParseErrView::KeywordNotMatched(w@),
            SqlParseError::IdentifierNotMatched => ParseErrView::IdentifierNotMatched,
            SqlParseError::RemainingTokens(ts) => ParseErrView::RemainingTokens(tokens_view(ts@)),
            SqlParseError::Lexical(e) => ParseErrView::Lexical(*e),
        }
    }
}

/// The token is a keyword whose text matches `w` up to ASCII case.
pub open spec fn kw_matches(t: TokenView, w: Seq<char>) -> bool {
    t matches TokenView::Keyword(v) && chars_eq_ic(v, w)
}

/// The identifier text of a token (empty for any other token kind).
pub open spec fn ident_text(t: TokenView) -> Seq<char> {
    match t {
        TokenView::Identifier(x) => x,
        _ => Seq::empty(),
    }
}

/// The source is a `Datastore` reference with the given name.
pub open spec fn is_datastore_named(src: DataSource, nm: Seq<char>) -> bool {
    src matches DataSource::Datastore { name } && name@ == nm
}

/// What the grammar yields on a token sequence: the column and table name on
/// success, or the first failing expectation.
pub open spec fn spec_parse_tokens(toks: Seq<TokenView>) -> Result<
    (Seq<char>, Seq<char>),
    ParseErrView,
> {
    if toks.len() == 0 {
        Err(ParseErrView::Eof)
    } else if !kw_matches(toks[0], "SELECT"@) {
        Err(ParseErrView::KeywordNotMatched("SELECT"@))
    } else if toks.len() == 1 {
        Err(ParseErrView::Eof)
    } else if !(toks[1] is Identifier) {
        Err(ParseErrView::IdentifierNotMatched)
    } else if toks.len() == 2 {
        Err(ParseErrView::Eof)
    } else if !kw_matches(toks[2], "FROM"@) {
        Err(ParseErrView::KeywordNotMatched("FROM"@))
    } else if toks.len() == 3 {
        Err(ParseErrView::Eof)
    } else if !(toks[3] is Identifier) {
        Err(ParseErrView::IdentifierNotMatched)
    } else if toks.len() > 4 {
        Err(ParseErrView::RemainingTokens(toks.skip(4)))
    } else {
        Ok((ident_text(toks[1]), ident_text(toks[3])))
    }
}

/// What parsing a whole input yields.
pub open spec fn spec_parse(s: Seq<char>) -> Result<(Seq<char>, Seq<char>), ParseErrView> {
    match spec_tokenize(s) {
        Ok(toks) => spec_parse_tokens(toks),
        Err(le) => Err(ParseErrView::Lexical(le)),
    }
}

/// Matches the given keyword at position `k` - case insensitive.
fn take_keyword(toks: &Vec<Token>, k: usize, name: &str) -> (r: Result<(), SqlParseError>)
    ensures
        match r {
            Ok(u) => k < toks.len() && kw_matches(tokens_view(toks@)[k as int], name@),
            Err(e) => {
                &&& k >= toks.len() ==> e@ == ParseErrView::Eof
                &&& k < toks.len() ==> !kw_matches(tokens_view(toks@)[k as int], name@) && e@
                    == ParseErrView::KeywordNotMatched(name@)
            },
        },
{
    if k >= toks.len() {
        return Err(SqlParseError::Eof);
    }
    proof {
        assert(tokens_view(toks@)[k as int] == toks@[k as int]@);
    }
    match &toks[k] {
        Token::Keyword(v) => {
            if crate::keywords::chars_eq_ic_exec(v.as_str(), name) {
                Ok(())
            } else {
                Err(SqlParseError::KeywordNotMatched(String::from_str(name)))
            }
        },
        _ => Err(SqlParseError::KeywordNotMatched(String::from_str(name))),
    }
}

/// Matches an identifier at position `k` and returns its text.
fn take_identifier(toks: &Vec<Token>, k: usize) -> (r: Result<String, SqlParseError>)
    ensures
        match r {
            Ok(text) => k < toks.len() && tokens_view(toks@)[k as int] == TokenView::Identifier(
                text@,
            ),
            Err(e) => {
                &&& k >= toks.len() ==> e@ == ParseErrView::Eof
                &&& k < toks.len() ==> !(tokens_view(toks@)[k as int] is Identifier) && e@
                    == ParseErrView::IdentifierNotMatched
            },
        },
{
    if k >= toks.len() {
        return Err(SqlParseError::Eof);
    }
    proof {
        assert(tokens_view(toks@)[k as int] == toks@[k as int]@);
    }
    match &toks[k] {
        Token::Identifier(v) => Ok(v.clone()),
        _ => Err(SqlParseError::IdentifierNotMatched),
    }
}

/// Runs the grammar over a token sequence and checks that nothing is left
/// over.
fn parse_internal(toks: Vec<Token>) -> (r: Result<SelectExpression, SqlParseError>)
    ensures
        match r {
            Ok(e) => {
                &&& spec_parse_tokens(tokens_view(toks@)) matches Ok(p)
                &&& e.columns.deep_view() == seq![p.0]
                &&& is_datastore_named(e.source, p.1)
            },
            Err(err) => spec_parse_tokens(tokens_view(toks@)) matches Err(pe) && err@ == pe,
        },
{
    let ghost tv = tokens_view(toks@);
    if let Err(e) = take_keyword(&toks, 0, "SELECT") {
        return Err(e);
    }
    let col = match take_identifier(&toks, 1) {
        Ok(c) => c,
        Err(e) => {
            return Err(e);
        },
    };
    if let Err(e) = take_keyword(&toks, 2, "FROM") {
        return Err(e);
    }
    let table = match take_identifier(&toks, 3) {
        Ok(t) => t,
        Err(e) => {
            return Err(e);
        },
    };
    if toks.len() > 4 {
        let mut rest: Vec<Token> = Vec::new();
        let mut k: usize = 4;
        while k < toks.len()
            invariant
                4 <= k <= toks.len(),
                rest@.len() == k - 4,
                forall|m: int| 0 <= m < k - 4 ==> #[trigger] rest@[m]@ == toks@[m + 4]@,
            decreases toks.len() - k,
        {
            rest.push(clone_token(&toks[k]));
            k += 1;
        }
        proof {
            assert(tokens_view(rest@) =~= tv.skip(4));
        }
        return Err(SqlParseError::RemainingTokens(rest));
    }
    let expr = SelectExpression {
        columns: vec![col],
        source: DataSource::Datastore { name: table },
    };
    proof {
        assert(expr.columns.deep_view() =~= seq![tv[1]->Identifier_0]);
    }
    Ok(expr)
}

/// Parses query text into a `SelectExpression`: tokenizes, runs the grammar,
/// and demands that every token is consumed.  Each failure mode is reported
/// as its own error: a tokenizer error, an unexpected end, a missing keyword
/// or identifier, or leftover tokens (which the error carries).
pub fn parse(s: &str) -> (r: Result<SelectExpression, SqlParseError>)
    ensures
        match r {
            Ok(e) => {
                &&& spec_parse(s@) matches Ok(p)
                &&& e.columns.deep_view() == seq![p.0]
                &&& is_datastore_named(e.source, p.1)
            },
            Err(err) => spec_parse(s@) matches Err(pe) && err@ == pe,
        },
{
    let toks = match tokenize(s) {
        Ok(t) => t,
        Err(e) => {
            return Err(SqlParseError::Lexical(e));
        },
    };
    parse_internal(toks)
}

/// The user-facing description of each parse failure.
pub open spec fn spec_message(e: ParseErrView) -> Seq<char> {
    match e {
        ParseErrView::Eof => "unexpected end of token stream"@,
        ParseErrView::KeywordNotMatched(w) => "keyword not matched: "@ + w,
        ParseErrView::IdentifierNotMatched => "identifier not matched"@,
        ParseErrView::RemainingTokens(ts) => "there are remaining tokens that were not parsed"@,
        ParseErrView::Lexical(le) => match le.kind {
            LexErrorKind::UnrecognizedCharacter => "unrecognized character in input"@,
            LexErrorKind::UnterminatedLiteral => "unterminated string literal"@,
            LexErrorKind::UnmatchedParen => "unmatched opening parenthesis"@,
            LexErrorKind::TrailingInput => "input was not consumed completely"@,
        },
    }
}

impl SqlParseError {
    /// A descriptive, user-facing rendering of the error.
    pub fn message(&self) -> (m: String)
        ensures
            m@ == spec_message(self@),
    {
        match self {
            SqlParseError::Eof => String::from_str("unexpected end of token stream"),
            SqlParseError::KeywordNotMatched(w) => {
                let mut m = String::from_str("keyword not matched: ");
                m.append(w.as_str());
                m
            },
            SqlParseError::IdentifierNotMatched => String::from_str("identifier not matched"),
            SqlParseError::RemainingTokens(ts) => String::from_str(
                "there are remaining tokens that were not parsed",
            ),
            SqlParseError::Lexical(le) => match le.kind {
                LexErrorKind::UnrecognizedCharacter => String::from_str(
                    "unrecognized character in input",
                ),
                LexErrorKind::UnterminatedLiteral => String::from_str(
                    "unterminated string literal",
                ),
                LexErrorKind::UnmatchedParen => String::from_str("unmatched opening parenthesis"),
                LexErrorKind::TrailingInput => String::from_str(
                    "input was not consumed completely",
                ),
            },
        }
    }
}

} // verus!
