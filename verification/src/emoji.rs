//! Scanning plain text one Unicode scalar value at a time.

use crate::token::{token_views, Token, TokenView};
use vstd::prelude::*;
use vstd::string::*;

verus! {

/// The image that the emoji table holds for `code`, if any.
pub uninterp spec fn emoji_image(code: Seq<char>) -> Option<Seq<u8>>;

/// Calls `rustwemoji::get`. The table is fixed, so the answer depends on
/// `code` alone; it is named [`emoji_image`] and nothing more is claimed
/// of it.
#[verifier::external_body]
fn lookup_emoji(code: &str) -> (image: Option<Vec<u8>>)
    ensures
        match image {
            Some(bytes) => emoji_image(code@) == Some(bytes@),
            None => emoji_image(code@) is None,
        },
{
    rustwemoji::get(code)
}

/// Calls `char::to_string`: the string that holds exactly `c`.
#[verifier::external_body]
fn char_to_string(c: char) -> (s: String)
    ensures
        s@ == seq![c],
{
    c.to_string()
}

/// The token that a single scalar value becomes.
pub open spec fn char_token(c: char) -> TokenView {
    match emoji_image(seq![c]) {
        Some(image) => TokenView::Emoji(image),
        None => TokenView::Text(seq![c]),
    }
}

/// The tokens of a plain-text span: one per scalar value, in order.
pub open spec fn text_tokens(span: Seq<char>) -> Seq<TokenView> {
    Seq::new(span.len(), |i: int| char_token(span[i]))
}

/// Chooses the token for `text` once the emoji table has answered:
/// the image where there is one, the text itself otherwise.
pub fn classify(text: String, image: Option<Vec<u8>>) -> (token: Token)
    ensures
        token@ == (match image {
            Some(bytes) => TokenView::Emoji(bytes@),
            None => TokenView::Text(text@),
        }),
{
    match image {
        Some(bytes) => Token::new_emoji(bytes),
        None => Token::new_text(text),
    }
}

/// Appends to `tokens` the tokens of the plain-text span `span`.
pub fn push_text_tokens(tokens: &mut Vec<Token>, span: &str)
    ensures
        token_views(final(tokens)@) == token_views(old(tokens)@) + text_tokens(span@),
{
    let ghost before = token_views(tokens@);
    for c in it: span.chars()
        invariant
            it.seq() == span@,
            token_views(tokens@) == before + text_tokens(span@.take(it.index() as int)),
    {
        let text = char_to_string(c);
        let image = lookup_emoji(text.as_str());
        let token = classify(text, image);
        let ghost seen = it.index() as int;
        let ghost earlier = tokens@;
        tokens.push(token);
        proof {
            assert(token@ == char_token(c));
            assert(token_views(tokens@) =~= token_views(earlier).push(token@));
            assert(text_tokens(span@.take(seen + 1)) =~= text_tokens(span@.take(seen)).push(
                char_token(c),
            ));
        }
    }
}

/// Converts a plain-text span into `Text` and `Emoji` tokens.
pub fn raw_parse_emoji(s: String) -> (tokens: Vec<Token>)
    ensures
        token_views(tokens@) == text_tokens(s@),
        tokens.len() == s@.len(),
        forall|i: int| 0 <= i < tokens.len() ==> !((#[trigger] tokens[i])@ is CustomEmoji),
{
    let mut tokens: Vec<Token> = Vec::new();
    push_text_tokens(&mut tokens, s.as_str());
    assert(token_views(tokens@) =~= text_tokens(s@));
    assert forall|i: int| 0 <= i < tokens.len() implies !((#[trigger] tokens[i])@ is CustomEmoji) by {
        assert(token_views(tokens@)[i] == char_token(s@[i]));
    }
    tokens
}

} // verus!
