//! Reconstruction of a sentence around one of its tokens.
//!
//! Tokens are joined by single spaces, except that a punctuation token
//! attaches to the token before it, and the first token has nothing in front.

use crate::token::{is_punct, Token, TokenModel};
use vstd::prelude::*;

verus! {

/// The separator between words.
pub open spec fn space() -> Seq<char> {
    " "@
}

/// The marker that switches bold and underline on.
pub open spec fn highlight_on() -> Seq<char> {
    "\u{1b}[1;4m"@
}

/// The marker that switches bold and underline off again.
pub open spec fn highlight_off() -> Seq<char> {
    "\u{1b}[22;24m"@
}

/// What stands between token `i` and the token before it: one space, or
/// nothing for the first token and for punctuation.
pub open spec fn separator(sentence: Seq<TokenModel>, i: int) -> Seq<char> {
    if i != 0 && !is_punct(sentence[i]) {
        space()
    } else {
        Seq::empty()
    }
}

/// The tokens `from..to` of a sentence, each preceded by its separator.
pub open spec fn joined(sentence: Seq<TokenModel>, from: int, to: int) -> Seq<char>
    decreases to - from,
{
    if to <= from {
        Seq::empty()
    } else {
        joined(sentence, from, to - 1) + separator(sentence, to - 1) + sentence[to - 1].text
    }
}

/// The whole sentence as one line of text.
pub open spec fn sentence_text(sentence: Seq<TokenModel>) -> Seq<char> {
    joined(sentence, 0, sentence.len() as int)
}

/// The text in front of token `at`, closed by the space that separates it
/// from the token when the parts are shown side by side.
pub open spec fn context_before(sentence: Seq<TokenModel>, at: int) -> Seq<char> {
    joined(sentence, 0, at) + space()
}

/// The text behind token `at`, beginning with the separator of the next token.
pub open spec fn context_after(sentence: Seq<TokenModel>, at: int) -> Seq<char> {
    joined(sentence, at + 1, sentence.len() as int)
}

/// The tokens `0..to` of a sentence with token `at` between the highlight
/// markers, if it is among them.
pub open spec fn bolded_prefix(sentence: Seq<TokenModel>, at: int, to: int) -> Seq<char> {
    if 0 <= at < to {
        joined(sentence, 0, at) + separator(sentence, at) + highlight_on() + sentence[at].text
            + highlight_off() + joined(sentence, at + 1, to)
    } else {
        joined(sentence, 0, to)
    }
}

/// The whole sentence with token `at` between the highlight markers. A
/// position behind the last token marks nothing.
pub open spec fn bolded_text(sentence: Seq<TokenModel>, at: int) -> Seq<char> {
    bolded_prefix(sentence, at, sentence.len() as int)
}

/// A joined range is the concatenation of its two halves.
pub proof fn lemma_joined_split(sentence: Seq<TokenModel>, from: int, mid: int, to: int)
    requires
        from <= mid <= to,
    ensures
        joined(sentence, from, to) == joined(sentence, from, mid) + joined(sentence, mid, to),
    decreases to - mid,
{
    if mid == to {
        assert(joined(sentence, from, to) =~= joined(sentence, from, mid) + joined(
            sentence,
            mid,
            to,
        ));
    } else {
        lemma_joined_split(sentence, from, mid, to - 1);
        let piece = separator(sentence, to - 1) + sentence[to - 1].text;
        assert(joined(sentence, from, to) =~= joined(sentence, from, to - 1) + piece);
        assert(joined(sentence, mid, to) =~= joined(sentence, mid, to - 1) + piece);
        assert(joined(sentence, from, to) =~= joined(sentence, from, mid) + joined(
            sentence,
            mid,
            to,
        ));
    }
}

/// Splitting a sentence around one of its tokens loses nothing: the text in
/// front without its closing space, the token's own separator, the token and
/// the text behind it make up the sentence again. For a token that has a
/// space in front of it the three parts concatenate to the sentence as they
/// are.
pub proof fn lemma_context_round_trip(sentence: Seq<TokenModel>, at: int)
    requires
        0 <= at < sentence.len(),
    ensures
        context_before(sentence, at).drop_last() == joined(sentence, 0, at),
        sentence_text(sentence) == context_before(sentence, at).drop_last() + separator(
            sentence,
            at,
        ) + sentence[at].text + context_after(sentence, at),
        at != 0 && !is_punct(sentence[at]) ==> sentence_text(sentence) == context_before(
            sentence,
            at,
        ) + sentence[at].text + context_after(sentence, at),
        at == 0 ==> space() + sentence_text(sentence) == context_before(sentence, at)
            + sentence[at].text + context_after(sentence, at),
{
    reveal_strlit(" ");
    let n = sentence.len() as int;
    let front = joined(sentence, 0, at);
    assert(space().len() == 1);
    assert(context_before(sentence, at).drop_last() =~= front);
    lemma_joined_split(sentence, 0, at + 1, n);
    assert(joined(sentence, 0, at + 1) =~= front + separator(sentence, at) + sentence[at].text);
    assert(sentence_text(sentence) =~= front + separator(sentence, at) + sentence[at].text
        + context_after(sentence, at));
    if at == 0 {
        assert(front =~= Seq::<char>::empty());
        assert(space() + sentence_text(sentence) =~= context_before(sentence, at)
            + sentence[at].text + context_after(sentence, at));
    }
}

/// The text before a token always ends with one space, the one that parts it
/// from the token; before the first token it is that space alone. After the
/// last token stands nothing.
pub proof fn lemma_context_edges(sentence: Seq<TokenModel>, at: int)
    requires
        0 <= at < sentence.len(),
    ensures
        context_before(sentence, at).len() > 0,
        context_before(sentence, at).last() == ' ',
        at == 0 ==> context_before(sentence, at) == seq![' '],
        at == sentence.len() - 1 ==> context_after(sentence, at) == Seq::<char>::empty(),
{
    reveal_strlit(" ");
    assert(space() =~= seq![' ']);
    if at == 0 {
        assert(context_before(sentence, at) =~= seq![' ']);
    }
}

/// The highlighted sentence is the plain sentence with the two markers put
/// around the chosen token, and nothing else changed.
pub proof fn lemma_bolded_wraps_word(sentence: Seq<TokenModel>, at: int)
    requires
        0 <= at < sentence.len(),
    ensures
        bolded_text(sentence, at) == context_before(sentence, at).drop_last() + separator(
            sentence,
            at,
        ) + highlight_on() + sentence[at].text + highlight_off() + context_after(sentence, at),
{
    lemma_context_round_trip(sentence, at);
}

/// Splits sentence `sentence_i` around its token `token_i` into the text
/// before the token, the token itself and the text after it. The text before
/// ends with the space that parts it from the token, and is that space alone
/// for the first token of a sentence; the text after begins with whatever
/// separates the next token, and is empty for the last token.
pub fn get_sentence_split(
    token_array: &Vec<Vec<Token>>,
    sentence_i: usize,
    token_i: usize,
) -> (parts: (String, String, String))
    requires
        sentence_i < token_array.len(),
        token_i < token_array[sentence_i as int].len(),
    ensures
        parts.0@ == context_before(token_array.deep_view()[sentence_i as int], token_i as int),
        parts.1@ == token_array.deep_view()[sentence_i as int][token_i as int].text,
        parts.2@ == context_after(token_array.deep_view()[sentence_i as int], token_i as int),
{
    let sentence = &token_array[sentence_i];
    let ghost model = token_array.deep_view()[sentence_i as int];
    assert(model == sentence.deep_view());
    let mut before = String::new();
    let word = sentence[token_i].text().to_owned();
    let mut after = String::new();
    let mut i: usize = 0;
    while i < sentence.len()
        invariant
            i <= sentence.len(),
            token_i < sentence.len(),
            model == sentence.deep_view(),
            i <= token_i ==> before@ == joined(model, 0, i as int)
                && after@ == Seq::<char>::empty(),
            i > token_i ==> before@ == joined(model, 0, token_i as int) && after@ == joined(
                model,
                token_i + 1,
                i as int,
            ),
        decreases sentence.len() - i,
    {
        let token = &sentence[i];
        assert(model[i as int] == token@);
        let ghost old_before = before@;
        let ghost old_after = after@;
        if i != 0 && !token.is_punct() {
            if i < token_i {
                before.append(" ");
            } else if i > token_i {
                after.append(" ");
            }
        }
        if i < token_i {
            before.append(token.text());
            assert(before@ =~= old_before + separator(model, i as int) + model[i as int].text);
        } else if i > token_i {
            after.append(token.text());
            assert(after@ =~= old_after + separator(model, i as int) + model[i as int].text);
        }
        i += 1;
    }
    before.append(" ");
    (before, word, after)
}

/// Renders sentence `sentence_i` as one line with its token `token_i` between
/// the highlight markers.
pub fn get_sentence_bolded(
    token_array: &Vec<Vec<Token>>,
    sentence_i: usize,
    token_i: usize,
) -> (line: String)
    requires
        sentence_i < token_array.len(),
    ensures
        line@ == bolded_text(token_array.deep_view()[sentence_i as int], token_i as int),
{
    let sentence = &token_array[sentence_i];
    let ghost model = token_array.deep_view()[sentence_i as int];
    assert(model == sentence.deep_view());
    let mut line = String::new();
    let mut i: usize = 0;
    while i < sentence.len()
        invariant
            i <= sentence.len(),
            model == sentence.deep_view(),
            line@ == bolded_prefix(model, token_i as int, i as int),
        decreases sentence.len() - i,
    {
        let token = &sentence[i];
        assert(model[i as int] == token@);
        let ghost old_line = line@;
        if i != 0 && !token.is_punct() {
            line.append(" ");
        }
        if i == token_i {
            line.append("\u{1b}[1;4m");
        }
        line.append(token.text());
        if i == token_i {
            line.append("\u{1b}[22;24m");
        }
        proof {
            let piece = separator(model, i as int) + model[i as int].text;
            if i == token_i {
                assert(joined(model, token_i + 1, i + 1) =~= Seq::<char>::empty());
                assert(line@ =~= bolded_prefix(model, token_i as int, i + 1));
            } else if i > token_i {
                assert(line@ =~= old_line + piece);
                assert(line@ =~= bolded_prefix(model, token_i as int, i + 1));
            } else {
                assert(line@ =~= old_line + piece);
            }
        }
        i += 1;
    }
    line
}

} // verus!
