//! The parenthesis nesting law: over input consisting only of parentheses,
//! the tokenizer accepts exactly the properly nested strings, and the token
//! tree it builds is exactly as deep as the input's nesting.

use vstd::prelude::*;

use crate::keywords::{first_phrase_at, resolve_from, resolve_tokens};
use crate::lexer::{block_comment_at, lex_tokens, line_comment_at, spec_tokenize};
use crate::token::TokenView;

verus! {

/// +1 for an opening parenthesis, -1 for a closing one.
pub open spec fn paren_delta(c: char) -> int {
    if c == '(' {
        1
    } else if c == ')' {
        -1
    } else {
        0
    }
}

/// Opening minus closing parentheses in `s`.
pub open spec fn excess(s: Seq<char>) -> int
    decreases s.len(),
{
    if s.len() == 0 {
        0
    } else {
        excess(s.drop_last()) + paren_delta(s.last())
    }
}

/// Every character of `s` is a parenthesis.
pub open spec fn all_parens(s: Seq<char>) -> bool {
    forall|k: int| 0 <= k < s.len() ==> (#[trigger] s[k]) == '(' || s[k] == ')'
}

/// Properly nested: no prefix closes more than it opened, and the whole
/// string closes everything it opened.
pub open spec fn balanced(s: Seq<char>) -> bool {
    excess(s) == 0 && forall|k: int| 0 <= k <= s.len() ==> excess(#[trigger] s.take(k)) >= 0
}

/// The same, over the range `[i, j)` of `s`.
pub open spec fn bal_range(s: Seq<char>, i: int, j: int) -> bool {
    excess(s.subrange(i, j)) == 0 && forall|m: int|
        i <= m <= j ==> excess(#[trigger] s.subrange(i, m)) >= 0
}

/// The nesting depth of the text: the largest excess over its prefixes.
pub open spec fn nesting_depth(s: Seq<char>) -> int
    decreases s.len(),
{
    if s.len() == 0 {
        0
    } else {
        let d = nesting_depth(s.drop_last());
        if excess(s) > d {
            excess(s)
        } else {
            d
        }
    }
}

/// The nesting depth of one token: parenthesis groups count, all other
/// tokens are flat.
pub open spec fn token_depth(t: TokenView) -> int
    decreases t, 0int,
{
    match t {
        TokenView::Parens(ts) => 1 + tokens_depth(ts, 0),
        _ => 0,
    }
}

/// The largest token depth from position `k` on.
pub open spec fn tokens_depth(ts: Seq<TokenView>, k: int) -> int
    decreases ts, ts.len() - k + 1,
{
    if !(0 <= k && k < ts.len()) {
        0
    } else {
        let d = token_depth(ts[k]);
        let r = tokens_depth(ts, k + 1);
        if d > r {
            d
        } else {
            r
        }
    }
}

proof fn lemma_excess_concat(a: Seq<char>, b: Seq<char>)
    ensures
        excess(a + b) == excess(a) + excess(b),
    decreases b.len(),
{
    if b.len() == 0 {
        assert(a + b =~= a);
    } else {
        assert((a + b).drop_last() =~= a + b.drop_last());
        lemma_excess_concat(a, b.drop_last());
    }
}

proof fn lemma_excess_split(s: Seq<char>, i: int, j: int, m: int)
    requires
        0 <= i <= j <= m <= s.len(),
    ensures
        excess(s.subrange(i, m)) == excess(s.subrange(i, j)) + excess(s.subrange(j, m)),
{
    assert(s.subrange(i, m) =~= s.subrange(i, j) + s.subrange(j, m));
    lemma_excess_concat(s.subrange(i, j), s.subrange(j, m));
}

proof fn lemma_one_char(c: char)
    ensures
        excess(seq![c]) == paren_delta(c),
        nesting_depth(seq![c]) == if paren_delta(c) > 0 {
            paren_delta(c)
        } else {
            0
        },
{
    let u = seq![c];
    assert(u.drop_last() =~= Seq::<char>::empty());
    assert(u.last() == c);
    assert(excess(u) == excess(u.drop_last()) + paren_delta(u.last()));
    assert(nesting_depth(u.drop_last()) == 0);
}

proof fn lemma_excess_one(s: Seq<char>, i: int)
    requires
        0 <= i < s.len(),
    ensures
        excess(s.subrange(i, i + 1)) == paren_delta(s[i]),
{
    assert(s.subrange(i, i + 1) =~= seq![s[i]]);
    lemma_one_char(s[i]);
}

/// Depth is at least the excess, and never negative.
proof fn lemma_depth_ge_excess(a: Seq<char>)
    ensures
        nesting_depth(a) >= excess(a),
        nesting_depth(a) >= 0,
    decreases a.len(),
{
    if a.len() > 0 {
        lemma_depth_ge_excess(a.drop_last());
    }
}

/// How depth composes across concatenation.
proof fn lemma_depth_concat(a: Seq<char>, b: Seq<char>)
    ensures
        nesting_depth(a + b) == if excess(a) + nesting_depth(b) > nesting_depth(a) {
            excess(a) + nesting_depth(b)
        } else {
            nesting_depth(a)
        },
    decreases b.len(),
{
    lemma_depth_ge_excess(a);
    if b.len() == 0 {
        assert(a + b =~= a);
    } else {
        assert((a + b).drop_last() =~= a + b.drop_last());
        lemma_depth_concat(a, b.drop_last());
        lemma_excess_concat(a, b);
        lemma_depth_ge_excess(b.drop_last());
    }
}

/// A sequence without identifier tokens.
pub open spec fn no_identifiers(ts: Seq<TokenView>) -> bool {
    forall|m: int| 0 <= m < ts.len() ==> !((#[trigger] ts[m]) is Identifier)
}

/// Keyword resolution passes a sequence without identifiers through
/// unchanged.
proof fn lemma_resolve_skip(ts: Seq<TokenView>, k: int)
    requires
        no_identifiers(ts),
        0 <= k <= ts.len(),
    ensures
        resolve_from(ts, k) == ts.skip(k),
    decreases ts.len() - k,
{
    if k < ts.len() {
        assert(first_phrase_at(ts, k) == -1);
        lemma_resolve_skip(ts, k + 1);
        assert(seq![ts[k]] + ts.skip(k + 1) =~= ts.skip(k));
    } else {
        assert(ts.skip(k) =~= Seq::<TokenView>::empty());
    }
}

proof fn lemma_tokens_depth_offset(a: Seq<TokenView>, b: Seq<TokenView>, k: int)
    requires
        0 <= k <= b.len(),
    ensures
        tokens_depth(a + b, a.len() + k) == tokens_depth(b, k),
    decreases b.len() - k,
{
    if k < b.len() {
        assert((a + b)[a.len() + k] == b[k]);
        lemma_tokens_depth_offset(a, b, k + 1);
    }
}

/// In a walk over parentheses that ends below its starting level after an
/// opening step, some nonempty prefix is balanced.
proof fn lemma_crossing_walk(s: Seq<char>, lo: int, q: int, hi: int)
    requires
        0 <= lo < q <= hi <= s.len(),
        all_parens(s),
        excess(s.subrange(lo, hi)) < 0,
        excess(s.subrange(lo, q)) >= 0,
        forall|m: int| lo < m < q ==> excess(#[trigger] s.subrange(lo, m)) >= 1,
    ensures
        exists|m: int| lo < m <= hi && bal_range(s, lo, m),
    decreases hi - q,
{
    if excess(s.subrange(lo, q)) == 0 {
        assert(s.subrange(lo, lo) =~= Seq::<char>::empty());
        assert(bal_range(s, lo, q));
    } else {
        assert(q < hi) by {
            if q == hi {
                assert(excess(s.subrange(lo, q)) < 0);
            }
        }
        lemma_excess_one(s, q);
        lemma_excess_split(s, lo, q, q + 1);
        lemma_crossing_walk(s, lo, q + 1, hi);
    }
}

proof fn lemma_crossing(s: Seq<char>, lo: int, hi: int)
    requires
        0 <= lo < hi <= s.len(),
        all_parens(s),
        s[lo] == '(',
        excess(s.subrange(lo, hi)) < 0,
    ensures
        exists|m: int| lo < m <= hi && bal_range(s, lo, m),
{
    lemma_excess_one(s, lo);
    lemma_crossing_walk(s, lo, lo + 1, hi);
}

/// What the production loop does on parenthesis-only input, from any start:
/// it consumes a balanced stretch that no balanced stretch extends, builds
/// only parenthesis tokens, and the tree depth equals the stretch's nesting
/// depth.
proof fn lemma_lex_parens(s: Seq<char>, i: int)
    requires
        all_parens(s),
        0 <= i <= s.len(),
    ensures
        ({
            let r = lex_tokens(s, i);
            &&& i <= r.1 <= s.len()
            &&& bal_range(s, i, r.1)
            &&& no_identifiers(r.0)
            &&& forall|m: int| 0 <= m < r.0.len() ==> (#[trigger] r.0[m]) is Parens
            &&& tokens_depth(r.0, 0) == nesting_depth(s.subrange(i, r.1))
            &&& r.1 < s.len() ==> forall|j2: int| r.1 < j2 <= s.len() ==> !bal_range(s, r.1, j2)
        }),
    decreases s.len() - i,
{
    let r = lex_tokens(s, i);
    if i >= s.len() {
        assert(s.subrange(i, i) =~= Seq::<char>::empty());
        assert(tokens_depth(r.0, 0) == 0);
    } else {
        assert(s[i] == '(' || s[i] == ')');
        assert(!line_comment_at(s, i));
        assert(!block_comment_at(s, i));
        assert(!crate::lexer::is_whitespace_char(s[i]));
        assert(!crate::lexer::is_word_char('('));
        assert(!crate::lexer::is_word_char(')'));
        if s[i] == ')' {
            assert(r == (Seq::<TokenView>::empty(), i));
            assert(s.subrange(i, i) =~= Seq::<char>::empty());
            assert(tokens_depth(r.0, 0) == 0);
            assert forall|j2: int| i < j2 <= s.len() implies !bal_range(s, i, j2) by {
                lemma_excess_one(s, i);
                assert(excess(s.subrange(i, i + 1)) == -1);
            }
        } else {
            lemma_lex_parens(s, i + 1);
            let inner = lex_tokens(s, i + 1);
            let k = inner.1;
            if k < s.len() && s[k] == ')' {
                lemma_resolve_skip(inner.0, 0);
                assert(inner.0.skip(0) =~= inner.0);
                assert(resolve_tokens(inner.0) == inner.0);
                crate::lexer::lemma_lex_bounds(s, i + 1);
                lemma_lex_parens(s, k + 1);
                let rest = lex_tokens(s, k + 1);
                let j = rest.1;
                let tok = TokenView::Parens(inner.0);
                assert(r == (seq![tok] + rest.0, j));
                // excess over the whole stretch
                lemma_excess_one(s, i);
                lemma_excess_one(s, k);
                lemma_excess_split(s, i, i + 1, k);
                lemma_excess_split(s, i, k, k + 1);
                lemma_excess_split(s, i, k + 1, j);
                assert(excess(s.subrange(i, j)) == 0);
                // prefixes stay nonnegative
                assert forall|m: int| i <= m <= j implies excess(#[trigger] s.subrange(i, m))
                    >= 0 by {
                    if m <= i {
                        assert(s.subrange(i, m) =~= Seq::<char>::empty());
                    } else if m <= k {
                        lemma_excess_split(s, i, i + 1, m);
                        assert(excess(s.subrange(i + 1, m)) >= 0);
                    } else if m == k + 1 {
                        lemma_excess_split(s, i, k, k + 1);
                    } else {
                        lemma_excess_split(s, i, k + 1, m);
                        assert(excess(s.subrange(k + 1, m)) >= 0);
                    }
                }
                assert(bal_range(s, i, j));
                // token shapes
                assert forall|m: int| 0 <= m < r.0.len() implies (#[trigger] r.0[m])
                    is Parens by {
                    if m > 0 {
                        assert(r.0[m] == rest.0[m - 1]);
                    }
                }
                assert(no_identifiers(r.0));
                // depth
                let ghost b = s.subrange(i + 1, k);
                let ghost c = s.subrange(k + 1, j);
                assert(s.subrange(i, j) =~= seq!['('] + (b + (seq![')'] + c)));
                lemma_depth_concat(seq!['('], b + (seq![')'] + c));
                lemma_depth_concat(b, seq![')'] + c);
                lemma_depth_concat(seq![')'], c);
                lemma_excess_concat(b, seq![')'] + c);
                lemma_excess_concat(seq![')'], c);
                lemma_one_char('(');
                lemma_one_char(')');
                assert(excess(seq!['(']) == 1);
                assert(excess(seq![')']) == -1);
                assert(nesting_depth(seq!['(']) == 1);
                assert(nesting_depth(seq![')']) == 0);
                lemma_depth_ge_excess(b);
                lemma_depth_ge_excess(c);
                let db = nesting_depth(b);
                let dc = nesting_depth(c);
                assert(excess(b) == 0);
                assert(excess(c) == 0);
                let x2 = seq![')'] + c;
                let x1 = b + x2;
                assert(nesting_depth(x2) == if dc - 1 > 0 {
                    dc - 1
                } else {
                    0
                });
                assert(nesting_depth(x1) == if nesting_depth(x2) > db {
                    nesting_depth(x2)
                } else {
                    db
                });
                lemma_depth_ge_excess(x1);
                assert(nesting_depth(seq!['('] + x1) == 1 + nesting_depth(x1));
                assert(s.subrange(i, j) =~= seq!['('] + x1);
                assert(nesting_depth(s.subrange(i, j)) == if 1 + db > dc {
                    1 + db
                } else {
                    dc
                });
                lemma_tokens_depth_offset(seq![tok], rest.0, 0);
                assert(seq![tok] + rest.0 =~= r.0);
                assert(tokens_depth(r.0, 1) == tokens_depth(rest.0, 0));
                assert(tokens_depth(rest.0, 0) == dc);
                assert(r.0[0] == tok);
                assert(token_depth(tok) == 1 + tokens_depth(inner.0, 0));
                assert(tokens_depth(inner.0, 0) == db);
                assert(tokens_depth(r.0, 0) == if token_depth(r.0[0]) > tokens_depth(r.0, 1) {
                    token_depth(r.0[0])
                } else {
                    tokens_depth(r.0, 1)
                });
                assert(tokens_depth(r.0, 0) == nesting_depth(s.subrange(i, j)));
                // maximality is the tail's
                assert(r.1 == rest.1);
            } else {
                assert(r == (Seq::<TokenView>::empty(), i));
                assert(s.subrange(i, i) =~= Seq::<char>::empty());
                assert(tokens_depth(r.0, 0) == 0);
                crate::lexer::lemma_lex_bounds(s, i + 1);
                assert forall|j2: int| i < j2 <= s.len() implies !bal_range(s, i, j2) by {
                    if bal_range(s, i, j2) {
                        lemma_excess_one(s, i);
                        lemma_excess_split(s, i, i + 1, j2);
                        assert(excess(s.subrange(i + 1, j2)) == -1);
                        if k >= s.len() {
                            // the whole tail from i + 1 is balanced
                            assert(excess(s.subrange(i + 1, j2)) >= 0);
                        } else {
                            assert(s[k] == '(');
                            if j2 <= k {
                                assert(excess(s.subrange(i + 1, j2)) >= 0);
                            } else {
                                lemma_excess_split(s, i + 1, k, j2);
                                assert(excess(s.subrange(k, j2)) == -1);
                                lemma_crossing(s, k, j2);
                                let m = choose|m: int| k < m <= j2 && bal_range(s, k, m);
                                assert(!bal_range(s, k, m));
                            }
                        }
                    }
                }
            }
        }
    }
}

/// Tokenizing a properly nested parenthesis string succeeds, and the token
/// tree's depth equals the input's nesting depth.
pub proof fn lemma_tokenize_balanced_parens(s: Seq<char>)
    requires
        all_parens(s),
        balanced(s),
    ensures
        spec_tokenize(s) matches Ok(toks) && tokens_depth(toks, 0) == nesting_depth(s),
{
    lemma_lex_parens(s, 0);
    let r = lex_tokens(s, 0);
    assert forall|m: int| 0 <= m <= s.len() implies excess(#[trigger] s.subrange(0, m)) >= 0 by {
        assert(s.take(m) =~= s.subrange(0, m));
    }
    if r.1 < s.len() {
        assert(bal_range(s, r.1, s.len() as int)) by {
            assert(s.subrange(0, s.len() as int) =~= s);
            lemma_excess_split(s, 0, r.1, s.len() as int);
            assert forall|m: int| r.1 <= m <= s.len() implies excess(
                #[trigger] s.subrange(r.1, m),
            ) >= 0 by {
                lemma_excess_split(s, 0, r.1, m);
            }
        }
        assert(false);
    }
    lemma_resolve_skip(r.0, 0);
    assert(r.0.skip(0) =~= r.0);
    assert(s.subrange(0, s.len() as int) =~= s);
}

/// Tokenizing a parenthesis string that is not properly nested (an unmatched
/// parenthesis anywhere) fails.
pub proof fn lemma_tokenize_unbalanced_parens_fails(s: Seq<char>)
    requires
        all_parens(s),
        !balanced(s),
    ensures
        spec_tokenize(s) is Err,
{
    lemma_lex_parens(s, 0);
    let r = lex_tokens(s, 0);
    if r.1 == s.len() {
        assert forall|k: int| 0 <= k <= s.len() implies excess(#[trigger] s.take(k)) >= 0 by {
            assert(s.take(k) =~= s.subrange(0, k));
        }
        assert(s.take(s.len() as int) =~= s.subrange(0, s.len() as int));
        assert(s.take(s.len() as int) =~= s);
        assert(balanced(s));
    }
}

} // verus!
