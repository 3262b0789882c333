//! Tokens, sentences and the corpus model.

use crate::text::same_text;
use vstd::prelude::*;

verus! {

/// The mathematical content of a [`Token`].
pub struct TokenModel {
    pub text: Seq<char>,
    pub lemma: Seq<char>,
    pub pos: Seq<char>,
}

/// One annotated token of a sentence: its surface text, its lemma and its
/// part-of-speech tag.
#[derive(Debug)]
pub struct Token {
    text: String,
    lemma: String,
    pos: String,
}

/// The part-of-speech tag that marks punctuation.
pub open spec fn punct_tag() -> Seq<char> {
    "PUNCT"@
}

/// Whether a token is a punctuation mark.
pub open spec fn is_punct(token: TokenModel) -> bool {
    token.pos == punct_tag()
}

impl View for Token {
    type V = TokenModel;

    closed spec fn view(&self) -> TokenModel {
        TokenModel { text: self.text@, lemma: self.lemma@, pos: self.pos@ }
    }
}

impl DeepView for Token {
    type V = TokenModel;

    open spec fn deep_view(&self) -> TokenModel {
        self@
    }
}

impl Token {
    /// A token of the given surface text, lemma and part-of-speech tag.
    pub fn new(text: String, lemma: String, pos: String) -> (token: Token)
        ensures
            token@ == (TokenModel { text: text@, lemma: lemma@, pos: pos@ }),
    {
        Token { text, lemma, pos }
    }

    /// The surface text.
    pub fn text(&self) -> (text: &str)
        ensures
            text@ == self@.text,
    {
        self.text.as_str()
    }

    /// The lemma, as the corpus gives it.
    pub fn lemma(&self) -> (lemma: &str)
        ensures
            lemma@ == self@.lemma,
    {
        self.lemma.as_str()
    }

    /// The part-of-speech tag.
    pub fn pos(&self) -> (pos: &str)
        ensures
            pos@ == self@.pos,
    {
        self.pos.as_str()
    }

    /// Whether the part-of-speech tag marks punctuation.
    pub fn is_punct(&self) -> (punct: bool)
        ensures
            punct == is_punct(self@),
    {
        same_text(self.pos.as_str(), "PUNCT")
    }
}

} // verus!
