//! The token type and its mathematical view.

use vstd::prelude::*;
use vstd::string::*;

verus! {

/// What a [`Token`] stands for, over mathematical sequences.
pub enum TokenView {
    Text(Seq<char>),
    Emoji(Seq<u8>),
    CustomEmoji(Seq<char>),
}

/// Tokens parsed
#[derive(Debug, PartialEq, Eq)]
pub enum Token {
    /// Text token
    Text(String),
    /// Emoji token (bytes of a png)
    Emoji(Vec<u8>),
    /// Custom emoji token (url)
    CustomEmoji(String),
}

impl View for Token {
    type V = TokenView;

    open spec fn view(&self) -> TokenView {
        match self {
            Token::Text(s) => TokenView::Text(s@),
            Token::Emoji(bytes) => TokenView::Emoji(bytes@),
            Token::CustomEmoji(url) => TokenView::CustomEmoji(url@),
        }
    }
}

/// The views of a sequence of tokens, in order.
pub open spec fn token_views(tokens: Seq<Token>) -> Seq<TokenView> {
    tokens.map_values(|t: Token| t@)
}

/// The address of the hosted image of the custom emoji with the given id.
pub open spec fn custom_emoji_url(id: Seq<char>) -> Seq<char> {
    "https://cdn.discordapp.com/emojis/"@ + id + ".png?size=96"@
}

impl Token {
    pub fn new_text(s: String) -> (token: Token)
        ensures
            token@ == TokenView::Text(s@),
    {
        Token::Text(s)
    }

    pub fn new_emoji(s: Vec<u8>) -> (token: Token)
        ensures
            token@ == TokenView::Emoji(s@),
    {
        Token::Emoji(s)
    }

    /// Builds the token of a custom emoji from its numeric id.
    pub fn new_custom_emoji(s: String) -> (token: Token)
        ensures
            token@ == TokenView::CustomEmoji(custom_emoji_url(s@)),
    {
        let mut url = String::from_str("https://cdn.discordapp.com/emojis/");
        url.append(s.as_str());
        url.append(".png?size=96");
        Token::CustomEmoji(url)
    }
}

} // verus!
