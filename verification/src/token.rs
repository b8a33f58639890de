//! The token model in which a manifest reaches the library.
//!
//! A manifest is a sequence of token trees: identifiers, punctuation,
//! literals and bracketed groups. A literal arrives by its source text and is
//! decoded once, by [`resolve_literals`], into the value it denotes; the
//! grammar functions of this crate read only decoded trees.

use vstd::prelude::*;

verus! {

/// The bracket kind of a token group.
#[derive(Clone, Copy, Debug, PartialEq, Eq, Structural)]
pub enum Delim {
    /// `( ... )`
    Paren,
    /// `{ ... }`
    Brace,
    /// `[ ... ]`
    Bracket,
    /// A group without visible brackets.
    Invisible,
}

/// One token tree of a manifest.
#[derive(Debug, PartialEq, Eq)]
pub enum Token {
    /// An identifier or keyword, by its text.
    Ident(String),
    /// A single punctuation character.
    Punct(char),
    /// A literal by its source text, quotes and suffix included, not decoded.
    Literal(String),
    /// A string literal, by the text it denotes.
    Str(String),
    /// An integer literal, by its digits in base 10.
    Int(String),
    /// A bracketed run of tokens.
    Group(Delim, Vec<Token>),
}

/// The mathematical value of a [`Token`].
pub ghost enum TokenView {
    Ident(Seq<char>),
    Punct(char),
    Literal(Seq<char>),
    Str(Seq<char>),
    Int(Seq<char>),
    Group(Delim, Seq<TokenView>),
}

/// The values of a run of tokens, one for one.
pub open spec fn views(tokens: Seq<Token>) -> Seq<TokenView>
    decreases tokens,
{
    Seq::new(
        tokens.len(),
        |i: int|
            if 0 <= i < tokens.len() {
                tokens[i].view()
            } else {
                TokenView::Punct(' ')
            },
    )
}

impl Token {
    pub open spec fn view(&self) -> TokenView
        decreases self,
    {
        match self {
            Token::Ident(s) => TokenView::Ident(s@),
            Token::Punct(c) => TokenView::Punct(*c),
            Token::Literal(s) => TokenView::Literal(s@),
            Token::Str(s) => TokenView::Str(s@),
            Token::Int(s) => TokenView::Int(s@),
            Token::Group(d, inner) => TokenView::Group(*d, views(inner@)),
        }
    }
}

impl Clone for Token {
    fn clone(&self) -> (r: Self)
        ensures
            r@ == self@,
        decreases self,
    {
        match self {
            Token::Ident(s) => Token::Ident(s.clone()),
            Token::Punct(c) => Token::Punct(*c),
            Token::Literal(s) => Token::Literal(s.clone()),
            Token::Str(s) => Token::Str(s.clone()),
            Token::Int(s) => Token::Int(s.clone()),
            Token::Group(d, inner) => {
                let mut out: Vec<Token> = Vec::new();
                let mut i: usize = 0;
                while i < inner.len()
                    invariant
                        *self matches Token::Group(_, v) && v == *inner,
                        i <= inner.len(),
                        out.len() == i,
                        forall|k: int| 0 <= k < i ==> out@[k]@ == inner@[k]@,
                    decreases inner.len() - i,
                {
                    out.push(inner[i].clone());
                    i += 1;
                }
                assert(views(out@) =~= views(inner@));
                Token::Group(*d, out)
            },
        }
    }
}

/// Decodes a string literal with `syn::parse_str::<syn::LitStr>` and
/// `syn::LitStr::value`: the text that the literal denotes, `None` where
/// `repr` is not one string literal.
///
/// Trusted, and nothing is claimed of the result: which texts are string
/// literals, and what they denote, is the lexer's to say, and the lexer that
/// answers is chosen by the process the call is made in.
#[verifier::external_body]
fn string_literal_value(repr: &str) -> (r: Option<String>) {
    match syn::parse_str::<syn::LitStr>(repr) {
        Ok(lit) => Some(lit.value()),
        Err(_) => None,
    }
}

/// Decodes an integer literal with `syn::parse_str::<syn::LitInt>` and
/// `syn::LitInt::base10_digits`: the literal's digits in base 10, `None`
/// where `repr` is not one integer literal.
///
/// Trusted, and nothing is claimed of the result: which texts are integer
/// literals, and which digits they give, is the lexer's to say, and the lexer
/// that answers is chosen by the process the call is made in.
#[verifier::external_body]
fn integer_literal_digits(repr: &str) -> (r: Option<String>) {
    match syn::parse_str::<syn::LitInt>(repr) {
        Ok(lit) => Some(lit.base10_digits().to_string()),
        Err(_) => None,
    }
}

/// Whether `r` may come of decoding the literals of `t`: an undecoded literal
/// has become a string or an integer, or has stayed as it was; a group holds,
/// in the same brackets, what may come of its tokens one for one; and every
/// other token is unchanged.
pub open spec fn spec_decodes(t: TokenView, r: TokenView) -> bool
    decreases t,
{
    match t {
        TokenView::Literal(_) => r is Str || r is Int || r == t,
        TokenView::Group(d, inner) => r is Group && r->Group_0 == d && spec_decodes_all(
            inner,
            r->Group_1,
        ),
        _ => r == t,
    }
}

/// [`spec_decodes`] for each tree of a run and the tree at its place in `rs`.
pub open spec fn spec_decodes_all(ts: Seq<TokenView>, rs: Seq<TokenView>) -> bool
    decreases ts,
{
    ts.len() == rs.len() && forall|i: int|
        #![trigger rs[i]]
        0 <= i < ts.len() ==> spec_decodes(ts[i], rs[i])
}

/// Whether `t` holds no undecoded literal, at any depth.
pub open spec fn spec_decoded(t: TokenView) -> bool
    decreases t,
{
    match t {
        TokenView::Literal(_) => false,
        TokenView::Group(_, inner) => spec_all_decoded(inner),
        _ => true,
    }
}

/// Whether no tree of the run holds an undecoded literal.
pub open spec fn spec_all_decoded(ts: Seq<TokenView>) -> bool
    decreases ts,
{
    forall|i: int| #![trigger ts[i]] 0 <= i < ts.len() ==> spec_decoded(ts[i])
}

/// Decoding leaves a tree without undecoded literals as it is.
pub proof fn lemma_decoded_token_stays(t: TokenView, r: TokenView)
    requires
        spec_decoded(t),
        spec_decodes(t, r),
    ensures
        r == t,
    decreases t,
{
    match t {
        TokenView::Group(d, inner) => {
            lemma_decoded_tokens_stay(inner, r->Group_1);
        },
        _ => {},
    }
}

/// Decoding leaves a run without undecoded literals as it is.
pub proof fn lemma_decoded_tokens_stay(ts: Seq<TokenView>, rs: Seq<TokenView>)
    requires
        spec_all_decoded(ts),
        spec_decodes_all(ts, rs),
    ensures
        rs == ts,
    decreases ts,
{
    assert forall|i: int| 0 <= i < ts.len() implies rs[i] == ts[i] by {
        lemma_decoded_token_stays(ts[i], rs[i]);
    }
    assert(rs =~= ts);
}

/// Builds the decoded token for a literal, given what the two decoders made
/// of its source text.
pub fn decoded_literal(repr: &String, text: Option<String>, digits: Option<String>) -> (r: Token)
    ensures
        r@ == match text {
            Some(v) => TokenView::Str(v@),
            None => match digits {
                Some(d) => TokenView::Int(d@),
                None => TokenView::Literal(repr@),
            },
        },
{
    match text {
        Some(v) => Token::Str(v),
        None => match digits {
            Some(d) => Token::Int(d),
            None => Token::Literal(repr.clone()),
        },
    }
}

/// Decodes every literal of one token tree.
pub fn resolve_token(t: &Token) -> (r: Token)
    ensures
        spec_decodes(t@, r@),
    decreases t,
{
    match t {
        Token::Literal(repr) => {
            let text = string_literal_value(repr.as_str());
            let digits = integer_literal_digits(repr.as_str());
            decoded_literal(repr, text, digits)
        },
        Token::Group(d, inner) => {
            let mut out: Vec<Token> = Vec::new();
            let mut i: usize = 0;
            while i < inner.len()
                invariant
                    *t matches Token::Group(_, v) && v == *inner,
                    i <= inner.len(),
                    out.len() == i,
                    forall|k: int| 0 <= k < i ==> spec_decodes(inner@[k]@, #[trigger] out@[k]@),
                decreases inner.len() - i,
            {
                out.push(resolve_token(&inner[i]));
                i += 1;
            }
            assert forall|k: int| 0 <= k < inner.len() implies spec_decodes(
                views(inner@)[k],
                #[trigger] views(out@)[k],
            ) by {
                assert(spec_decodes(inner@[k]@, out@[k]@));
            }
            assert(spec_decodes_all(views(inner@), views(out@)));
            Token::Group(*d, out)
        },
        _ => t.clone(),
    }
}

/// Decodes every literal of a run of token trees, at every depth.
pub fn resolve_literals(tokens: &Vec<Token>) -> (r: Vec<Token>)
    ensures
        spec_decodes_all(views(tokens@), views(r@)),
{
    let mut out: Vec<Token> = Vec::new();
    let mut i: usize = 0;
    while i < tokens.len()
        invariant
            i <= tokens.len(),
            out.len() == i,
            forall|k: int| 0 <= k < i ==> spec_decodes(tokens@[k]@, #[trigger] out@[k]@),
        decreases tokens.len() - i,
    {
        out.push(resolve_token(&tokens[i]));
        i += 1;
    }
    assert forall|k: int| 0 <= k < tokens.len() implies spec_decodes(
        views(tokens@)[k],
        #[trigger] views(out@)[k],
    ) by {
        assert(spec_decodes(tokens@[k]@, out@[k]@));
    }
    out
}

} // verus!
