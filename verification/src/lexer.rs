//! The tokenizer: raw query text to a token sequence.
//!
//! At each position it tries, in precedence order: a comment, a parenthesized
//! group (tokenized recursively, keyword resolution included), a string
//! literal, a comma, whitespace, an identifier.  Comments and whitespace
//! produce no token.  The whole input must be consumed; the position where
//! scanning stopped classifies the error.
//!
//! One scanning quirk is kept deliberately: a block comment's body is read as
//! the longest nonempty run of characters that are neither `*` nor `/`, so a
//! body containing either character (or an empty body) does not close and the
//! opening `/` is reported as an unrecognized character.

use vstd::prelude::*;
use vstd::string::StrSliceExecFns;

use crate::keywords::{resolve_exec, resolve_tokens};
use crate::text::{chars_of, find_char, lemma_find_char_bounds, scan_find, string_range};
use crate::token::{tokens_view, Token, TokenView};

verus! {

/// Why tokenizing stopped.
#[derive(Debug, Clone, Copy, PartialEq, Eq, Structural)]
pub enum LexErrorKind {
    /// No production matches at this position.
    UnrecognizedCharacter,
    /// A `"` whose literal never closes.
    UnterminatedLiteral,
    /// A `(` whose group reaches the end of the input without a `)`.
    UnmatchedParen,
    /// Text from this position on cannot be consumed (for instance a `)`
    /// with no opening parenthesis before it).
    TrailingInput,
}

/// A tokenizer failure: what went wrong and the character position where.
#[derive(Debug, Clone, Copy, PartialEq, Eq, Structural)]
pub struct LexError {
    pub kind: LexErrorKind,
    pub pos: usize,
}

pub open spec fn is_whitespace_char(c: char) -> bool {
    c == ' ' || c == '\n' || c == '\t'
}

pub open spec fn is_ascii_lower(c: char) -> bool {
    97 <= c as u32 && c as u32 <= 122
}

pub open spec fn is_ascii_digit_char(c: char) -> bool {
    48 <= c as u32 && c as u32 <= 57
}

/// What `char::is_alphanumeric` returns: a fixed classification of each
/// character, named here so that contracts can speak about it.
pub uninterp spec fn unicode_alphanumeric(c: char) -> bool;

/// A character that may stand in an identifier: an ASCII letter, an ASCII
/// digit, an underscore, or a character beyond ASCII that is a Unicode
/// letter or digit.
pub open spec fn is_word_char(c: char) -> bool {
    is_ascii_lower(c) || crate::keywords::is_ascii_upper(c) || is_ascii_digit_char(c) || c == '_'
        || (c as u32 >= 128 && unicode_alphanumeric(c))
}

/// The first position at or after `i` holding `*` or `/`, or the end of the
/// input: where a block comment's body ends.
pub open spec fn block_body_end(s: Seq<char>, i: int) -> int
    decreases s.len() - i,
{
    if i < s.len() {
        if s[i] == '*' || s[i] == '/' {
            i
        } else {
            block_body_end(s, i + 1)
        }
    } else {
        i
    }
}

/// The end of a maximal whitespace run starting at `i`.
pub open spec fn ws_end(s: Seq<char>, i: int) -> int
    decreases s.len() - i,
{
    if i < s.len() && is_whitespace_char(s[i]) {
        ws_end(s, i + 1)
    } else {
        i
    }
}

/// The end of a maximal identifier-character run starting at `i`.
pub open spec fn word_end(s: Seq<char>, i: int) -> int
    decreases s.len() - i,
{
    if i < s.len() && is_word_char(s[i]) {
        word_end(s, i + 1)
    } else {
        i
    }
}

/// A line comment `--` begins at `i`.
pub open spec fn line_comment_at(s: Seq<char>, i: int) -> bool {
    i + 2 <= s.len() && s[i] == '-' && s[i + 1] == '-'
}

/// Where a line comment beginning at `i` ends: one past the next newline, or
/// the end of the input.
pub open spec fn line_comment_end(s: Seq<char>, i: int) -> int {
    let j = find_char(s, i + 2, '\n');
    if j < s.len() {
        j + 1
    } else {
        j
    }
}

/// A complete block comment begins at `i`: `/*`, a nonempty body free of `*`
/// and `/`, then `*/`.
pub open spec fn block_comment_at(s: Seq<char>, i: int) -> bool {
    let b = block_body_end(s, i + 2);
    &&& i + 2 <= s.len()
    &&& s[i] == '/'
    &&& s[i + 1] == '*'
    &&& b > i + 2
    &&& b + 2 <= s.len()
    &&& s[b] == '*'
    &&& s[b + 1] == '/'
}

/// Where a comment beginning at `i` ends.
pub open spec fn comment_end(s: Seq<char>, i: int) -> int {
    if line_comment_at(s, i) {
        line_comment_end(s, i)
    } else {
        block_body_end(s, i + 2) + 2
    }
}

/// The tokenizer's production loop from position `i`: the tokens produced and
/// the position where no production matches any more.  Children of a
/// parenthesized group already carry keyword resolution.
pub open spec fn lex_tokens(s: Seq<char>, i: int) -> (Seq<TokenView>, int)
    decreases s.len() - i,
{
    if !(0 <= i && i < s.len()) {
        (Seq::<TokenView>::empty(), i)
    } else if line_comment_at(s, i) || block_comment_at(s, i) {
        let j = comment_end(s, i);
        if i < j && j <= s.len() {
            lex_tokens(s, j)
        } else {
            (Seq::<TokenView>::empty(), i)
        }
    } else if s[i] == '(' {
        let r = lex_tokens(s, i + 1);
        let j = r.1;
        if j < s.len() && s[j] == ')' {
            let tok = TokenView::Parens(resolve_tokens(r.0));
            if i < j + 1 {
                let rest = lex_tokens(s, j + 1);
                (seq![tok] + rest.0, rest.1)
            } else {
                (Seq::<TokenView>::empty(), i)
            }
        } else {
            (Seq::<TokenView>::empty(), i)
        }
    } else if s[i] == '"' {
        let q = find_char(s, i + 1, '"');
        if q < s.len() {
            let tok = TokenView::Literal(s.subrange(i + 1, q));
            if i < q + 1 {
                let rest = lex_tokens(s, q + 1);
                (seq![tok] + rest.0, rest.1)
            } else {
                (Seq::<TokenView>::empty(), i)
            }
        } else {
            (Seq::<TokenView>::empty(), i)
        }
    } else if s[i] == ',' {
        let rest = lex_tokens(s, i + 1);
        (seq![TokenView::Comma] + rest.0, rest.1)
    } else if is_whitespace_char(s[i]) {
        let j = ws_end(s, i);
        if i < j && j <= s.len() {
            lex_tokens(s, j)
        } else {
            (Seq::<TokenView>::empty(), i)
        }
    } else if is_word_char(s[i]) {
        let j = word_end(s, i);
        let tok = TokenView::Identifier(s.subrange(i, j));
        if i < j && j <= s.len() {
            let rest = lex_tokens(s, j);
            (seq![tok] + rest.0, rest.1)
        } else {
            (Seq::<TokenView>::empty(), i)
        }
    } else {
        (Seq::<TokenView>::empty(), i)
    }
}

/// Classifies the position where the production loop stopped short of the
/// end of the input.
pub open spec fn classify_stop(s: Seq<char>, j: int) -> LexError
    decreases s.len() - j,
{
    if !(0 <= j && j < s.len()) {
        LexError { kind: LexErrorKind::TrailingInput, pos: j as usize }
    } else if s[j] == '"' {
        LexError { kind: LexErrorKind::UnterminatedLiteral, pos: j as usize }
    } else if s[j] == '(' {
        let k = lex_tokens(s, j + 1).1;
        if k >= s.len() {
            LexError { kind: LexErrorKind::UnmatchedParen, pos: j as usize }
        } else if j < k {
            classify_stop(s, k)
        } else {
            LexError { kind: LexErrorKind::UnmatchedParen, pos: j as usize }
        }
    } else if s[j] == ')' {
        LexError { kind: LexErrorKind::TrailingInput, pos: j as usize }
    } else {
        LexError { kind: LexErrorKind::UnrecognizedCharacter, pos: j as usize }
    }
}

/// What tokenizing a whole input yields: the keyword-resolved token sequence
/// when every character is consumed, and a classified error otherwise.
pub open spec fn spec_tokenize(s: Seq<char>) -> Result<Seq<TokenView>, LexError> {
    let r = lex_tokens(s, 0);
    if r.1 == s.len() {
        Ok(resolve_tokens(r.0))
    } else {
        Err(classify_stop(s, r.1))
    }
}

pub proof fn lemma_block_body_end_bounds(s: Seq<char>, i: int)
    requires
        0 <= i <= s.len(),
    ensures
        i <= block_body_end(s, i) <= s.len(),
    decreases s.len() - i,
{
    if i < s.len() && !(s[i] == '*' || s[i] == '/') {
        lemma_block_body_end_bounds(s, i + 1);
    }
}

pub proof fn lemma_ws_end_bounds(s: Seq<char>, i: int)
    requires
        0 <= i <= s.len(),
    ensures
        i <= ws_end(s, i) <= s.len(),
    decreases s.len() - i,
{
    if i < s.len() && is_whitespace_char(s[i]) {
        lemma_ws_end_bounds(s, i + 1);
    }
}

pub proof fn lemma_word_end_bounds(s: Seq<char>, i: int)
    requires
        0 <= i <= s.len(),
    ensures
        i <= word_end(s, i) <= s.len(),
    decreases s.len() - i,
{
    if i < s.len() && is_word_char(s[i]) {
        lemma_word_end_bounds(s, i + 1);
    }
}

/// Relies on `char::is_alphanumeric`: whether a character is a Unicode
/// letter or digit depends on the character alone; the result is named
/// `unicode_alphanumeric`.  Only characters beyond ASCII are routed here.
#[verifier::external_body]
fn char_is_alphanumeric(c: char) -> (r: bool)
    ensures
        r == unicode_alphanumeric(c),
{
    c.is_alphanumeric()
}

fn word_char(c: char) -> (r: bool)
    ensures
        r == is_word_char(c),
{
    let u = c as u32;
    if u < 128 {
        (97 <= u && u <= 122) || (65 <= u && u <= 90) || (48 <= u && u <= 57) || c == '_'
    } else {
        char_is_alphanumeric(c)
    }
}

fn scan_block_body(chars: &Vec<char>, i: usize) -> (j: usize)
    requires
        i <= chars.len(),
    ensures
        j as int == block_body_end(chars@, i as int),
        i <= j <= chars.len(),
    decreases chars.len() - i,
{
    if i < chars.len() {
        if chars[i] == '*' || chars[i] == '/' {
            i
        } else {
            scan_block_body(chars, i + 1)
        }
    } else {
        i
    }
}

fn scan_ws_end(chars: &Vec<char>, i: usize) -> (j: usize)
    requires
        i <= chars.len(),
    ensures
        j as int == ws_end(chars@, i as int),
        i <= j <= chars.len(),
    decreases chars.len() - i,
{
    if i < chars.len() && (chars[i] == ' ' || chars[i] == '\n' || chars[i] == '\t') {
        scan_ws_end(chars, i + 1)
    } else {
        i
    }
}

fn scan_word_end(chars: &Vec<char>, i: usize) -> (j: usize)
    requires
        i <= chars.len(),
    ensures
        j as int == word_end(chars@, i as int),
        i <= j <= chars.len(),
    decreases chars.len() - i,
{
    if i < chars.len() && word_char(chars[i]) {
        scan_word_end(chars, i + 1)
    } else {
        i
    }
}

/// The production loop, on a character buffer: produces exactly the tokens
/// and stop position of `lex_tokens`.
fn lex_from(chars: &Vec<char>, i: usize) -> (res: (Vec<Token>, usize))
    requires
        i <= chars.len(),
    ensures
        tokens_view(res.0@) == lex_tokens(chars@, i as int).0,
        res.1 as int == lex_tokens(chars@, i as int).1,
        i <= res.1 <= chars.len(),
    decreases chars.len() - i,
{
    let ghost s = chars@;
    if i >= chars.len() {
        proof {
            assert(tokens_view(Seq::<Token>::empty()) =~= Seq::<TokenView>::empty());
        }
        (Vec::new(), i)
    } else {
        let c = chars[i];
        if i + 1 < chars.len() && c == '-' && chars[i + 1] == '-' {
            let j = scan_find(chars, i + 2, '\n');
            let e: usize = if j < chars.len() {
                j + 1
            } else {
                j
            };
            proof {
                assert(line_comment_at(s, i as int));
                assert(e as int == comment_end(s, i as int));
            }
            lex_from(chars, e)
        } else if c == '/' && i + 1 < chars.len() && chars[i + 1] == '*' {
            let b = scan_block_body(chars, i + 2);
            if b > i + 2 && b < chars.len() && b + 1 < chars.len() && chars[b] == '*' && chars[b
                + 1] == '/' {
                proof {
                    assert(block_comment_at(s, i as int));
                    assert((b + 2) as int == comment_end(s, i as int));
                }
                lex_from(chars, b + 2)
            } else {
                proof {
                    assert(!block_comment_at(s, i as int));
                    assert(!line_comment_at(s, i as int));
                    assert(!is_word_char(s[i as int]));
                    assert(tokens_view(Seq::<Token>::empty()) =~= Seq::<TokenView>::empty());
                }
                (Vec::new(), i)
            }
        } else if c == '(' {
            let inner = lex_from(chars, i + 1);
            let j: usize = inner.1;
            let itoks = inner.0;
            if j < chars.len() && chars[j] == ')' {
                let resolved = resolve_exec(&itoks);
                proof {
                    crate::token::lemma_parens_view(resolved);
                }
                let tok = Token::Parens(resolved);
                let ghost tokv = tok@;
                let mut v: Vec<Token> = Vec::new();
                v.push(tok);
                let rest = lex_from(chars, j + 1);
                let e: usize = rest.1;
                let mut rtoks = rest.0;
                proof {
                    crate::token::lemma_tokens_view_add(v@, rtoks@);
                    assert(tokens_view(v@) =~= seq![tokv]);
                }
                v.append(&mut rtoks);
                (v, e)
            } else {
                proof {
                    assert(!line_comment_at(s, i as int));
                    assert(!block_comment_at(s, i as int));
                    assert(tokens_view(Seq::<Token>::empty()) =~= Seq::<TokenView>::empty());
                }
                (Vec::new(), i)
            }
        } else if c == '"' {
            let q = scan_find(chars, i + 1, '"');
            if q < chars.len() {
                let text = string_range(chars, i + 1, q);
                let tok = Token::Literal(text);
                let ghost tokv = tok@;
                let mut v: Vec<Token> = Vec::new();
                v.push(tok);
                let rest = lex_from(chars, q + 1);
                let e: usize = rest.1;
                let mut rtoks = rest.0;
                proof {
                    crate::token::lemma_tokens_view_add(v@, rtoks@);
                    assert(tokens_view(v@) =~= seq![tokv]);
                }
                v.append(&mut rtoks);
                (v, e)
            } else {
                proof {
                    assert(!line_comment_at(s, i as int));
                    assert(!block_comment_at(s, i as int));
                    assert(!is_word_char(s[i as int]));
                    assert(tokens_view(Seq::<Token>::empty()) =~= Seq::<TokenView>::empty());
                }
                (Vec::new(), i)
            }
        } else if c == ',' {
            let tok = Token::Comma;
            let ghost tokv = tok@;
            let mut v: Vec<Token> = Vec::new();
            v.push(tok);
            let rest = lex_from(chars, i + 1);
            let e: usize = rest.1;
            let mut rtoks = rest.0;
            proof {
                crate::token::lemma_tokens_view_add(v@, rtoks@);
                assert(tokens_view(v@) =~= seq![tokv]);
            }
            v.append(&mut rtoks);
            (v, e)
        } else if c == ' ' || c == '\n' || c == '\t' {
            let j = scan_ws_end(chars, i);
            proof {
                assert(ws_end(s, i as int) == ws_end(s, i as int + 1));
                lemma_ws_end_bounds(s, i as int + 1);
            }
            lex_from(chars, j)
        } else if word_char(c) {
            let j = scan_word_end(chars, i);
            proof {
                assert(word_end(s, i as int) == word_end(s, i as int + 1));
                lemma_word_end_bounds(s, i as int + 1);
            }
            let text = string_range(chars, i, j);
            let tok = Token::Identifier(text);
            let ghost tokv = tok@;
            let mut v: Vec<Token> = Vec::new();
            v.push(tok);
            let rest = lex_from(chars, j);
            let e: usize = rest.1;
            let mut rtoks = rest.0;
            proof {
                crate::token::lemma_tokens_view_add(v@, rtoks@);
                assert(tokens_view(v@) =~= seq![tokv]);
            }
            v.append(&mut rtoks);
            (v, e)
        } else {
            proof {
                assert(!line_comment_at(s, i as int));
                assert(!block_comment_at(s, i as int));
                assert(tokens_view(Seq::<Token>::empty()) =~= Seq::<TokenView>::empty());
            }
            (Vec::new(), i)
        }
    }
}

/// Classification of a failed scan, mirroring `classify_stop`.
fn classify_exec(chars: &Vec<char>, j: usize) -> (e: LexError)
    requires
        j < chars.len(),
    ensures
        e == classify_stop(chars@, j as int),
    decreases chars.len() - j,
{
    let c = chars[j];
    if c == '"' {
        LexError { kind: LexErrorKind::UnterminatedLiteral, pos: j }
    } else if c == '(' {
        let r = lex_from(chars, j + 1);
        let k: usize = r.1;
        if k >= chars.len() {
            LexError { kind: LexErrorKind::UnmatchedParen, pos: j }
        } else {
            classify_exec(chars, k)
        }
    } else if c == ')' {
        LexError { kind: LexErrorKind::TrailingInput, pos: j }
    } else {
        LexError { kind: LexErrorKind::UnrecognizedCharacter, pos: j }
    }
}

/// Turns query text into its token sequence, keyword resolution included.
/// The whole input must be consumed; otherwise the position where scanning
/// stopped is reported, classified as an unrecognized character, an
/// unterminated literal, an unmatched parenthesis, or trailing input.
pub fn tokenize(s: &str) -> (r: Result<Vec<Token>, LexError>)
    ensures
        match r {
            Ok(toks) => spec_tokenize(s@) == Ok::<Seq<TokenView>, LexError>(tokens_view(toks@)),
            Err(e) => spec_tokenize(s@) == Err::<Seq<TokenView>, LexError>(e),
        },
{
    let chars = chars_of(s);
    let r0 = lex_from(&chars, 0);
    let j: usize = r0.1;
    let toks = r0.0;
    if j == chars.len() {
        Ok(resolve_exec(&toks))
    } else {
        Err(classify_exec(&chars, j))
    }
}

/// A maximal identifier run is delimited by its first non-word position.
pub proof fn lemma_word_run(s: Seq<char>, i: int, j: int)
    requires
        0 <= i <= j <= s.len(),
        forall|k: int| i <= k < j ==> is_word_char(#[trigger] s[k]),
        j == s.len() || !is_word_char(s[j]),
    ensures
        word_end(s, i) == j,
    decreases j - i,
{
    if i < j {
        lemma_word_run(s, i + 1, j);
    }
}

/// A maximal whitespace run is delimited by its first non-whitespace
/// position.
pub proof fn lemma_ws_run(s: Seq<char>, i: int, j: int)
    requires
        0 <= i <= j <= s.len(),
        forall|k: int| i <= k < j ==> is_whitespace_char(#[trigger] s[k]),
        j == s.len() || !is_whitespace_char(s[j]),
    ensures
        ws_end(s, i) == j,
    decreases j - i,
{
    if i < j {
        lemma_ws_run(s, i + 1, j);
    }
}

/// Scanning a text that is one maximal identifier run yields that one
/// identifier.
proof fn lemma_lex_single_word(s: Seq<char>)
    requires
        s.len() > 0,
        forall|k: int| 0 <= k < s.len() ==> is_word_char(#[trigger] s[k]),
    ensures
        lex_tokens(s, 0) == (seq![TokenView::Identifier(s)], s.len() as int),
    decreases s.len(),
{
    assert(!is_word_char('-'));
    assert(!is_word_char('/'));
    assert(!is_word_char('('));
    assert(!is_word_char('"'));
    assert(!is_word_char(','));
    assert(!is_word_char(' '));
    assert(!is_word_char('\n'));
    assert(!is_word_char('\t'));
    lemma_word_run(s, 0, s.len() as int);
    assert(s.subrange(0, s.len() as int) =~= s);
    let rest = lex_tokens(s, s.len() as int);
    assert(rest.0 =~= Seq::<TokenView>::empty());
    assert(lex_tokens(s, 0).0 =~= seq![TokenView::Identifier(s)]);
}

/// Re-tokenizing the canonical upper-case text of any keyword of the table
/// as raw input, keyword resolution included, reproduces exactly that one
/// keyword token.
pub proof fn lemma_keyword_text_retokenizes(t: int)
    requires
        0 <= t < 5,
    ensures
        spec_tokenize(crate::keywords::phrase_canon(t)) == Ok::<Seq<TokenView>, LexError>(
            seq![TokenView::Keyword(crate::keywords::phrase_canon(t))],
        ),
{
    reveal_strlit("SELECT");
    reveal_strlit("select");
    reveal_strlit("FROM");
    reveal_strlit("from");
    reveal_strlit("WHERE");
    reveal_strlit("where");
    reveal_strlit("JOIN");
    reveal_strlit("join");
    reveal_strlit("LEFT JOIN");
    reveal_strlit("LEFT");
    reveal_strlit("left");
    let s = crate::keywords::phrase_canon(t);
    if t == 3 {
        lemma_left_join_text_retokenizes();
    } else {
        assert(forall|k: int| 0 <= k < s.len() ==> is_word_char(#[trigger] s[k]));
        lemma_lex_single_word(s);
        let toks = seq![TokenView::Identifier(s)];
        if t == 0 {
            assert(crate::keywords::chars_eq_ic(s, "select"@));
            assert(crate::keywords::first_phrase_at(toks, 0) == 0);
        } else if t == 1 {
            assert(!crate::keywords::chars_eq_ic(s, "select"@));
            assert(crate::keywords::chars_eq_ic(s, "from"@));
            assert(crate::keywords::first_phrase_at(toks, 0) == 1);
        } else if t == 2 {
            assert(!crate::keywords::chars_eq_ic(s, "select"@));
            assert(!crate::keywords::chars_eq_ic(s, "from"@));
            assert(crate::keywords::chars_eq_ic(s, "where"@));
            assert(crate::keywords::first_phrase_at(toks, 0) == 2);
        } else {
            assert(!crate::keywords::chars_eq_ic(s, "select"@));
            assert(!crate::keywords::chars_eq_ic(s, "from"@)) by {
                if crate::keywords::chars_eq_ic(s, "from"@) {
                    assert(crate::keywords::char_eq_ic(s[0], "from"@[0]));
                }
            }
            assert(!crate::keywords::chars_eq_ic(s, "where"@));
            assert(!crate::keywords::left_join_at(toks, 0));
            assert(crate::keywords::chars_eq_ic(s, "join"@));
            assert(crate::keywords::first_phrase_at(toks, 0) == 4);
        }
        assert(crate::keywords::resolve_from(toks, 1) =~= Seq::<TokenView>::empty());
        assert(crate::keywords::resolve_tokens(toks) =~= seq![TokenView::Keyword(s)]);
    }
}

/// The two-word canonical text "LEFT JOIN" re-tokenizes to its one keyword.
proof fn lemma_left_join_text_retokenizes()
    ensures
        spec_tokenize("LEFT JOIN"@) == Ok::<Seq<TokenView>, LexError>(
            seq![TokenView::Keyword("LEFT JOIN"@)],
        ),
{
    reveal_strlit("LEFT JOIN");
    reveal_strlit("LEFT");
    reveal_strlit("JOIN");
    reveal_strlit("left");
    reveal_strlit("join");
    reveal_strlit("select");
    reveal_strlit("from");
    reveal_strlit("where");
    let s = "LEFT JOIN"@;
    assert(s.len() == 9);
    assert(forall|k: int| 0 <= k < 4 ==> is_word_char(#[trigger] s[k]));
    assert(!is_word_char(s[4]));
    lemma_word_run(s, 0, 4);
    assert(forall|k: int| 5 <= k < 9 ==> is_word_char(#[trigger] s[k]));
    lemma_word_run(s, 5, 9);
    lemma_ws_run(s, 4, 5);
    let rest2 = lex_tokens(s, 9);
    assert(rest2.0 =~= Seq::<TokenView>::empty());
    let lhs = lex_tokens(s, 5);
    assert(lhs.0 =~= seq![TokenView::Identifier(s.subrange(5, 9))]);
    assert(lhs.1 == 9);
    assert(lex_tokens(s, 4) == lex_tokens(s, 5));
    assert(lex_tokens(s, 0).0 =~= seq![
        TokenView::Identifier(s.subrange(0, 4)),
        TokenView::Identifier(s.subrange(5, 9)),
    ]);
    assert(lex_tokens(s, 0).1 == 9);
    let toks = lex_tokens(s, 0).0;
    assert(s.subrange(0, 4) =~= "LEFT"@);
    assert(s.subrange(5, 9) =~= "JOIN"@);
    assert(crate::keywords::chars_eq_ic("LEFT"@, "left"@));
    assert(crate::keywords::chars_eq_ic("JOIN"@, "join"@));
    assert(crate::keywords::left_join_at(toks, 0));
    crate::keywords::lemma_left_join_precedence(toks, 0);
    assert(crate::keywords::resolve_from(toks, 2) =~= Seq::<TokenView>::empty());
    assert(crate::keywords::resolve_tokens(toks) =~= seq![TokenView::Keyword("LEFT JOIN"@)]);
}

/// The production loop never moves backwards and never runs past the end.
pub proof fn lemma_lex_bounds(s: Seq<char>, i: int)
    requires
        0 <= i <= s.len(),
    ensures
        i <= lex_tokens(s, i).1 <= s.len(),
    decreases s.len() - i,
{
    if !(0 <= i && i < s.len()) {
    } else if line_comment_at(s, i) || block_comment_at(s, i) {
        if line_comment_at(s, i) {
            lemma_find_char_bounds(s, i + 2, '\n');
        } else {
            lemma_block_body_end_bounds(s, i + 2);
        }
        let j = comment_end(s, i);
        if i < j && j <= s.len() {
            lemma_lex_bounds(s, j);
        }
    } else if s[i] == '(' {
        lemma_lex_bounds(s, i + 1);
        let j = lex_tokens(s, i + 1).1;
        if j < s.len() && s[j] == ')' {
            lemma_lex_bounds(s, j + 1);
        }
    } else if s[i] == '"' {
        lemma_find_char_bounds(s, i + 1, '"');
        let q = find_char(s, i + 1, '"');
        if q < s.len() {
            lemma_lex_bounds(s, q + 1);
        }
    } else if s[i] == ',' {
        lemma_lex_bounds(s, i + 1);
    } else if is_whitespace_char(s[i]) {
        lemma_ws_end_bounds(s, i);
        let j = ws_end(s, i);
        if i < j && j <= s.len() {
            lemma_lex_bounds(s, j);
        }
    } else if is_word_char(s[i]) {
        lemma_word_end_bounds(s, i);
        let j = word_end(s, i);
        if i < j && j <= s.len() {
            lemma_lex_bounds(s, j);
        }
    }
}

} // verus!
