//! The keyword-resolution pass: a scan over a flat token sequence that folds
//! runs of identifiers into multi-word keyword tokens.
//!
//! The phrase table is ordered; a phrase that shares leading words with a
//! longer phrase ("join" versus "left join") stands after it, so the longest
//! phrase wins.  Matching is case-insensitive over ASCII letters, and the
//! produced keyword text is the canonical upper-case phrase.

use vstd::prelude::*;
use vstd::string::{StrSliceExecFns, StringExecFns};

use crate::token::{clone_token, tokens_view, Token, TokenView};

verus! {

pub open spec fn is_ascii_upper(c: char) -> bool {
    65 <= c as u32 && c as u32 <= 90
}

/// Two characters are equal up to ASCII case.
pub open spec fn char_eq_ic(a: char, b: char) -> bool {
    a == b || (is_ascii_upper(a) && a as u32 + 32 == b as u32) || (is_ascii_upper(b) && b as u32
        + 32 == a as u32)
}

/// Two texts are equal up to ASCII case.
pub open spec fn chars_eq_ic(a: Seq<char>, b: Seq<char>) -> bool {
    a.len() == b.len() && forall|k: int| 0 <= k < a.len() ==> #[trigger] char_eq_ic(a[k], b[k])
}

/// The token is an identifier whose text matches the word up to ASCII case.
pub open spec fn ident_matches(t: TokenView, w: Seq<char>) -> bool {
    t matches TokenView::Identifier(x) && chars_eq_ic(x, w)
}

/// A one-word phrase matches at position `k`.
pub open spec fn word_at(toks: Seq<TokenView>, k: int, w: Seq<char>) -> bool {
    0 <= k < toks.len() && ident_matches(toks[k], w)
}

/// The two-word phrase "left join" matches at position `k`.
pub open spec fn left_join_at(toks: Seq<TokenView>, k: int) -> bool {
    0 <= k && k + 2 <= toks.len() && ident_matches(toks[k], "left"@) && ident_matches(
        toks[k + 1],
        "join"@,
    )
}

/// The index in the phrase table of the first phrase that matches at `k`,
/// or -1 when none does.  Table order: "select", "from", "where",
/// "left join", "join"; the longer phrase stands before its suffix word.
pub open spec fn first_phrase_at(toks: Seq<TokenView>, k: int) -> int {
    if word_at(toks, k, "select"@) {
        0
    } else if word_at(toks, k, "from"@) {
        1
    } else if word_at(toks, k, "where"@) {
        2
    } else if left_join_at(toks, k) {
        3
    } else if word_at(toks, k, "join"@) {
        4
    } else {
        -1
    }
}

/// The canonical upper-case text of table entry `t`.
pub open spec fn phrase_canon(t: int) -> Seq<char> {
    if t == 0 {
        "SELECT"@
    } else if t == 1 {
        "FROM"@
    } else if t == 2 {
        "WHERE"@
    } else if t == 3 {
        "LEFT JOIN"@
    } else {
        "JOIN"@
    }
}

/// How many tokens table entry `t` consumes.
pub open spec fn phrase_token_count(t: int) -> int {
    if t == 3 {
        2
    } else {
        1
    }
}

/// Keyword resolution from position `k` on: at each position the first
/// matching phrase collapses into one keyword token, and a position where no
/// phrase matches passes its token through unchanged.
pub open spec fn resolve_from(toks: Seq<TokenView>, k: int) -> Seq<TokenView>
    decreases toks.len() - k,
{
    if !(0 <= k && k < toks.len()) {
        Seq::empty()
    } else {
        let t = first_phrase_at(toks, k);
        if t >= 0 {
            seq![TokenView::Keyword(phrase_canon(t))] + resolve_from(toks, k + phrase_token_count(t))
        } else {
            seq![toks[k]] + resolve_from(toks, k + 1)
        }
    }
}

/// Keyword resolution of a whole token sequence.
pub open spec fn resolve_tokens(toks: Seq<TokenView>) -> Seq<TokenView> {
    resolve_from(toks, 0)
}

fn char_eq_ic_exec(a: char, b: char) -> (r: bool)
    ensures
        r == char_eq_ic(a, b),
{
    let x = a as u32;
    let y = b as u32;
    x == y || (65 <= x && x <= 90 && x + 32 == y) || (65 <= y && y <= 90 && y + 32 == x)
}

/// Case-insensitive comparison of two texts, as the scanner's keyword words
/// use it.
pub fn chars_eq_ic_exec(a: &str, b: &str) -> (r: bool)
    ensures
        r == chars_eq_ic(a@, b@),
{
    let na = a.unicode_len();
    let nb = b.unicode_len();
    if na != nb {
        return false;
    }
    let mut k: usize = 0;
    while k < na
        invariant
            na == a@.len(),
            nb == b@.len(),
            na == nb,
            k <= na,
            forall|m: int| 0 <= m < k ==> #[trigger] char_eq_ic(a@[m], b@[m]),
        decreases na - k,
    {
        if !char_eq_ic_exec(a.get_char(k), b.get_char(k)) {
            return false;
        }
        k += 1;
    }
    true
}

/// Whether the token at `k` is an identifier matching the given word.
fn word_at_exec(toks: &Vec<Token>, k: usize, w: &str) -> (r: bool)
    requires
        k < toks.len(),
    ensures
        r == word_at(tokens_view(toks@), k as int, w@),
{
    proof {
        assert(tokens_view(toks@)[k as int] == toks@[k as int]@);
    }
    match &toks[k] {
        Token::Identifier(text) => chars_eq_ic_exec(text.as_str(), w),
        _ => false,
    }
}

/// Tries the phrase table at position `k`; on a match returns the keyword
/// token and how many tokens it consumes.
fn try_keyword(toks: &Vec<Token>, k: usize) -> (r: Option<(Token, usize)>)
    requires
        k < toks.len(),
    ensures
        match r {
            Some(p) => {
                let t = first_phrase_at(tokens_view(toks@), k as int);
                &&& t >= 0
                &&& p.0@ == TokenView::Keyword(phrase_canon(t))
                &&& p.1 as int == phrase_token_count(t)
                &&& 1 <= p.1
                &&& k + p.1 <= toks.len()
            },
            None => first_phrase_at(tokens_view(toks@), k as int) == -1,
        },
{
    if word_at_exec(toks, k, "select") {
        Some((Token::Keyword(String::from_str("SELECT")), 1))
    } else if word_at_exec(toks, k, "from") {
        Some((Token::Keyword(String::from_str("FROM")), 1))
    } else if word_at_exec(toks, k, "where") {
        Some((Token::Keyword(String::from_str("WHERE")), 1))
    } else if k + 1 < toks.len() && word_at_exec(toks, k, "left") && word_at_exec(
        toks,
        k + 1,
        "join",
    ) {
        Some((Token::Keyword(String::from_str("LEFT JOIN")), 2))
    } else if word_at_exec(toks, k, "join") {
        Some((Token::Keyword(String::from_str("JOIN")), 1))
    } else {
        None
    }
}

fn resolve_from_exec(toks: &Vec<Token>, k: usize) -> (r: Vec<Token>)
    requires
        k <= toks.len(),
    ensures
        tokens_view(r@) == resolve_from(tokens_view(toks@), k as int),
    decreases toks.len() - k,
{
    if k >= toks.len() {
        Vec::new()
    } else {
        match try_keyword(toks, k) {
            Some((kw, n)) => {
                let mut v: Vec<Token> = Vec::new();
                let ghost kwv = kw@;
                v.push(kw);
                let mut rest = resolve_from_exec(toks, k + n);
                proof {
                    crate::token::lemma_tokens_view_add(v@, rest@);
                    assert(tokens_view(v@) =~= seq![kwv]);
                }
                v.append(&mut rest);
                v
            },
            None => {
                let mut v: Vec<Token> = Vec::new();
                let ghost tv = toks@[k as int]@;
                v.push(clone_token(&toks[k]));
                let mut rest = resolve_from_exec(toks, k + 1);
                proof {
                    crate::token::lemma_tokens_view_add(v@, rest@);
                    assert(tokens_view(v@) =~= seq![tv]);
                    assert(tokens_view(toks@)[k as int] == tv);
                }
                v.append(&mut rest);
                v
            },
        }
    }
}

/// Keyword resolution of a whole token sequence; this pass is total and never
/// rejects its input.
pub fn resolve_exec(toks: &Vec<Token>) -> (r: Vec<Token>)
    ensures
        tokens_view(r@) == resolve_tokens(tokens_view(toks@)),
{
    resolve_from_exec(toks, 0)
}

/// Longest-match precedence: wherever the two-word phrase "left join"
/// matches, resolution emits the single keyword `LEFT JOIN` and moves past
/// both words; the word "join" is never split off the phrase.
pub proof fn lemma_left_join_precedence(toks: Seq<TokenView>, k: int)
    requires
        left_join_at(toks, k),
    ensures
        resolve_from(toks, k) == seq![TokenView::Keyword("LEFT JOIN"@)] + resolve_from(
            toks,
            k + 2,
        ),
{
    reveal_strlit("left");
    reveal_strlit("select");
    reveal_strlit("from");
    reveal_strlit("where");
    assert(!word_at(toks, k, "select"@));
    assert(!word_at(toks, k, "from"@)) by {
        if word_at(toks, k, "from"@) {
            assert(char_eq_ic(toks[k]->Identifier_0[0], "left"@[0]));
            assert(char_eq_ic(toks[k]->Identifier_0[0], "from"@[0]));
        }
    }
    assert(!word_at(toks, k, "where"@));
    assert(first_phrase_at(toks, k) == 3);
}

/// Case-insensitivity: an identifier whose text is any capitalization of
/// "select" resolves to the one canonical keyword `SELECT`.
pub proof fn lemma_select_case_insensitive(toks: Seq<TokenView>, k: int)
    requires
        word_at(toks, k, "select"@),
    ensures
        resolve_from(toks, k) == seq![TokenView::Keyword("SELECT"@)] + resolve_from(toks, k + 1),
{
    assert(first_phrase_at(toks, k) == 0);
}

} // verus!
