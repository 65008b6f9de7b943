use quote::Tokens;
use vstd::prelude::*;

verus! {

/// `quote::Tokens`, a buffer of source text that grows token by token.
#[verifier::external_type_specification]
#[verifier::external_body]
pub struct ExTokens(quote::Tokens);

/// The text that a `quote::Tokens` holds.
pub uninterp spec fn tokens_text(t: Tokens) -> Seq<char>;

/// The string literal that quote writes for a text (`ToTokens` for `str`).
pub uninterp spec fn str_literal(s: Seq<char>) -> Seq<char>;

/// `acc` with one more token: a single space parts the two where neither is
/// empty.
pub open spec fn joined(acc: Seq<char>, token: Seq<char>) -> Seq<char> {
    if acc.len() > 0 && token.len() > 0 {
        acc + seq![' '] + token
    } else {
        acc + token
    }
}

/// `acc` with each of `tokens` joined to it in turn.
pub open spec fn joined_all(acc: Seq<char>, tokens: Seq<Seq<char>>) -> Seq<char>
    decreases tokens.len(),
{
    if tokens.len() == 0 {
        acc
    } else {
        joined(joined_all(acc, tokens.drop_last()), tokens.last())
    }
}

/// The texts of a list of tokens.
pub open spec fn texts(list: Seq<&str>) -> Seq<Seq<char>> {
    list.map_values(|s: &str| s@)
}

/// `quote::Tokens::new` returns an empty buffer.
pub assume_specification[ quote::Tokens::new ]() -> (t: Tokens)
    ensures
        tokens_text(t) == Seq::<char>::empty(),
;

/// `quote::Tokens::as_str` lends the text that the buffer holds.
pub assume_specification<'a>[ quote::Tokens::as_str ](t: &'a Tokens) -> (r: &'a str)
    ensures
        r@ == tokens_text(*t),
;

/// Calls `quote::Tokens::append`, which pushes a space where the buffer and
/// the token are both non-empty, and then the token.
#[verifier::external_body]
pub(crate) fn append_token(tokens: &mut Tokens, token: &str)
    ensures
        tokens_text(*final(tokens)) == joined(tokens_text(*old(tokens)), token@),
{
    tokens.append(token)
}

/// Calls quote's `ToTokens::to_tokens` for `str`, which appends the text as
/// one token, a string literal. How the literal escapes its characters is
/// quote's business: it is named, not stated.
#[verifier::external_body]
pub(crate) fn append_literal(tokens: &mut Tokens, text: &str)
    ensures
        tokens_text(*final(tokens)) == joined(tokens_text(*old(tokens)), str_literal(text@)),
{
    quote::ToTokens::to_tokens(text, tokens)
}

/// Makes a `syn::Ident` of the name and calls its `ToTokens::to_tokens`, which
/// appends the name as it stands, as one token.
#[verifier::external_body]
pub(crate) fn append_ident(tokens: &mut Tokens, name: &str)
    ensures
        tokens_text(*final(tokens)) == joined(tokens_text(*old(tokens)), name@),
{
    quote::ToTokens::to_tokens(&syn::Ident::from(name), tokens)
}

/// Joining two runs of tokens in turn is joining their concatenation.
pub proof fn lemma_joined_all_concat(acc: Seq<char>, a: Seq<Seq<char>>, b: Seq<Seq<char>>)
    ensures
        joined_all(joined_all(acc, a), b) == joined_all(acc, a + b),
    decreases b.len(),
{
    if b.len() == 0 {
        assert(a + b =~= a);
    } else {
        lemma_joined_all_concat(acc, a, b.drop_last());
        assert((a + b).drop_last() =~= a + b.drop_last());
        assert((a + b).last() == b.last());
    }
}

/// Joining a run of one token is joining that token.
pub proof fn lemma_joined_all_one(acc: Seq<char>, token: Seq<char>)
    ensures
        joined_all(acc, seq![token]) == joined(acc, token),
{
    assert(seq![token].drop_last() =~= Seq::<Seq<char>>::empty());
    assert(joined_all(acc, seq![token].drop_last()) == acc);
}

/// Joining one more token after a run is joining the run with the token
/// added.
pub proof fn lemma_push(acc: Seq<char>, done: Seq<Seq<char>>, token: Seq<char>)
    ensures
        joined(joined_all(acc, done), token) == joined_all(acc, done + seq![token]),
{
    lemma_joined_all_one(joined_all(acc, done), token);
    lemma_joined_all_concat(acc, done, seq![token]);
}

/// Appends each token of `list` in turn.
pub(crate) fn append_tokens(tokens: &mut Tokens, list: &[&str])
    ensures
        tokens_text(*final(tokens)) == joined_all(tokens_text(*old(tokens)), texts(list@)),
{
    let mut i: usize = 0;
    while i < list.len()
        invariant
            i <= list@.len(),
            tokens_text(*tokens) == joined_all(
                tokens_text(*old(tokens)),
                texts(list@.take(i as int)),
            ),
        decreases list@.len() - i,
    {
        append_token(tokens, list[i]);
        proof {
            assert(texts(list@.take(i + 1)).drop_last() =~= texts(list@.take(i as int)));
        }
        i = i + 1;
    }
    proof {
        assert(list@.take(i as int) =~= list@);
    }
}

} // verus!
