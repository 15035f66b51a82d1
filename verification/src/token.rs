//! The token vocabulary produced by scanning query text, together with its
//! mathematical model: a token whose texts are character sequences.

use vstd::prelude::*;

verus! {

/// A lexical token.  `Keyword` holds the canonical upper-case phrase,
/// `Identifier` and `Literal` hold their text exactly as written, and
/// `Parens` holds everything between one matched pair of parentheses.
#[derive(Debug, Eq, PartialEq)]
pub enum Token {
    Keyword(String),
    Identifier(String),
    Literal(String),
    Comma,
    Parens(Vec<Token>),
}

/// The abstraction of a `Token`: the same tree with every text viewed as a
/// `Seq<char>`.
pub enum TokenView {
    Keyword(Seq<char>),
    Identifier(Seq<char>),
    Literal(Seq<char>),
    Comma,
    Parens(Seq<TokenView>),
}

impl View for Token {
    type V = TokenView;

    open spec fn view(&self) -> TokenView
        decreases self,
    {
        match self {
            Token::Keyword(s) => TokenView::Keyword(s@),
            Token::Identifier(s) => TokenView::Identifier(s@),
            Token::Literal(s) => TokenView::Literal(s@),
            Token::Comma => TokenView::Comma,
            Token::Parens(ts) => TokenView::Parens(
                Seq::new(ts@.len(), |i: int| if 0 <= i < ts@.len() { ts@[i]@ } else { TokenView::Comma }),
            ),
        }
    }
}

/// The view of a whole token sequence.
pub open spec fn tokens_view(ts: Seq<Token>) -> Seq<TokenView> {
    ts.map_values(|t: Token| t@)
}

/// A `Parens` token abstracts to the views of its children.
pub proof fn lemma_parens_view(ts: Vec<Token>)
    ensures
        Token::Parens(ts)@ == TokenView::Parens(tokens_view(ts@)),
{
    assert(Token::Parens(ts)@->Parens_0 =~= tokens_view(ts@));
}

pub proof fn lemma_tokens_view_add(a: Seq<Token>, b: Seq<Token>)
    ensures
        tokens_view(a + b) == tokens_view(a) + tokens_view(b),
{
    assert(tokens_view(a + b) =~= tokens_view(a) + tokens_view(b));
}

/// An exact copy of a token; the copy has the same view.
pub fn clone_token(t: &Token) -> (r: Token)
    ensures
        r@ == t@,
    decreases t,
{
    match t {
        Token::Keyword(s) => Token::Keyword(s.clone()),
        Token::Identifier(s) => Token::Identifier(s.clone()),
        Token::Literal(s) => Token::Literal(s.clone()),
        Token::Comma => Token::Comma,
        Token::Parens(ts) => {
            proof {
                assert(*t == Token::Parens(*ts));
            }
            let mut v: Vec<Token> = Vec::new();
            let mut k: usize = 0;
            while k < ts.len()
                invariant
                    *t == Token::Parens(*ts),
                    k <= ts.len(),
                    v@.len() == k,
                    forall|m: int| 0 <= m < k ==> #[trigger] v@[m]@ == ts@[m]@,
                decreases ts.len() - k,
            {
                proof {
                    assert(decreases_to!(*t => t->Parens_0));
                    assert(decreases_to!(*ts => ts@));
                    assert(decreases_to!(ts@ => ts@[k as int]));
                }
                v.push(clone_token(&ts[k]));
                k += 1;
            }
            proof {
                lemma_parens_view(*ts);
                lemma_parens_view(v);
                assert(tokens_view(v@) =~= tokens_view(ts@));
            }
            Token::Parens(v)
        },
    }
}

} // verus!
