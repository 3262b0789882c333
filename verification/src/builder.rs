//! Building the frequency index from a corpus, and what holds of the result.

use crate::index::{
    form_keys, forms_with, index_count, index_wf, index_with, key_position, lemma_index_with_count,
    lemma_index_with_lookup, lemma_index_with_wf, lemma_key_position_from, lemma_keys,
    occurrences_of, FormModel, LemmaMap, LemmaModel,
};
use crate::text::lowercase;
use crate::token::{is_punct, Token, TokenModel};
use vstd::prelude::*;

verus! {

/// The index after token `token`, which stands at `pos`, has been scanned:
/// punctuation leaves it as it is, any other token is recorded under its
/// lower-cased lemma and text.
pub open spec fn index_with_token(
    index: Seq<LemmaModel>,
    token: TokenModel,
    pos: (usize, usize),
) -> Seq<LemmaModel> {
    if is_punct(token) {
        index
    } else {
        index_with(index, lowercase(token.lemma), lowercase(token.text), pos)
    }
}

/// The index after the first `upto` tokens of sentence number `s` have been
/// scanned in order.
pub open spec fn index_with_tokens(
    index: Seq<LemmaModel>,
    sentence: Seq<TokenModel>,
    s: int,
    upto: int,
) -> Seq<LemmaModel>
    decreases upto,
{
    if upto <= 0 {
        index
    } else {
        index_with_token(
            index_with_tokens(index, sentence, s, upto - 1),
            sentence[upto - 1],
            (s as usize, (upto - 1) as usize),
        )
    }
}

/// The index after the sentences `from..upto` of the corpus have been scanned
/// in order.
pub open spec fn index_with_sentences(
    index: Seq<LemmaModel>,
    corpus: Seq<Seq<TokenModel>>,
    from: int,
    upto: int,
) -> Seq<LemmaModel>
    decreases upto - from,
{
    if upto <= from {
        index
    } else {
        index_with_tokens(
            index_with_sentences(index, corpus, from, upto - 1),
            corpus[upto - 1],
            upto - 1,
            corpus[upto - 1].len() as int,
        )
    }
}

/// The index of a corpus.
pub open spec fn built_index(corpus: Seq<Seq<TokenModel>>) -> Seq<LemmaModel> {
    index_with_sentences(Seq::empty(), corpus, 0, corpus.len() as int)
}

/// The number of tokens among the first `upto` of a sentence that are not
/// punctuation.
pub open spec fn words_in_sentence(sentence: Seq<TokenModel>, upto: int) -> nat
    decreases upto,
{
    if upto <= 0 {
        0
    } else {
        words_in_sentence(sentence, upto - 1) + if is_punct(sentence[upto - 1]) {
            0nat
        } else {
            1nat
        }
    }
}

/// The number of tokens in the sentences `from..upto` that are not
/// punctuation.
pub open spec fn words_in_sentences(corpus: Seq<Seq<TokenModel>>, from: int, upto: int) -> nat
    decreases upto - from,
{
    if upto <= from {
        0
    } else {
        words_in_sentences(corpus, from, upto - 1) + words_in_sentence(
            corpus[upto - 1],
            corpus[upto - 1].len() as int,
        )
    }
}

/// The number of tokens in the corpus that are not punctuation.
pub open spec fn words_in_corpus(corpus: Seq<Seq<TokenModel>>) -> nat {
    words_in_sentences(corpus, 0, corpus.len() as int)
}

/// Scanning tokens adds one occurrence for each that is not punctuation.
pub proof fn lemma_tokens_count(
    index: Seq<LemmaModel>,
    sentence: Seq<TokenModel>,
    s: int,
    upto: int,
)
    ensures
        index_count(index_with_tokens(index, sentence, s, upto)) == index_count(index)
            + words_in_sentence(sentence, upto),
    decreases upto,
{
    if upto > 0 {
        lemma_tokens_count(index, sentence, s, upto - 1);
        let before = index_with_tokens(index, sentence, s, upto - 1);
        let token = sentence[upto - 1];
        if !is_punct(token) {
            lemma_index_with_count(
                before,
                lowercase(token.lemma),
                lowercase(token.text),
                (s as usize, (upto - 1) as usize),
            );
        }
    }
}

/// Scanning sentences adds one occurrence for each token that is not
/// punctuation.
pub proof fn lemma_sentences_count(
    index: Seq<LemmaModel>,
    corpus: Seq<Seq<TokenModel>>,
    from: int,
    upto: int,
)
    ensures
        index_count(index_with_sentences(index, corpus, from, upto)) == index_count(index)
            + words_in_sentences(corpus, from, upto),
    decreases upto - from,
{
    if upto > from {
        lemma_sentences_count(index, corpus, from, upto - 1);
        lemma_tokens_count(
            index_with_sentences(index, corpus, from, upto - 1),
            corpus[upto - 1],
            upto - 1,
            corpus[upto - 1].len() as int,
        );
    }
}

/// The word counts of all lemma buckets of the index of a corpus add up to
/// the number of tokens of the corpus that are not punctuation.
pub proof fn lemma_built_index_counts_words(corpus: Seq<Seq<TokenModel>>)
    ensures
        index_count(built_index(corpus)) == words_in_corpus(corpus),
{
    lemma_sentences_count(Seq::empty(), corpus, 0, corpus.len() as int);
}

/// Scanning tokens keeps a well-formed index well formed.
pub proof fn lemma_tokens_wf(
    index: Seq<LemmaModel>,
    sentence: Seq<TokenModel>,
    s: int,
    upto: int,
)
    requires
        index_wf(index),
    ensures
        index_wf(index_with_tokens(index, sentence, s, upto)),
    decreases upto,
{
    if upto > 0 {
        lemma_tokens_wf(index, sentence, s, upto - 1);
        let before = index_with_tokens(index, sentence, s, upto - 1);
        let token = sentence[upto - 1];
        if !is_punct(token) {
            lemma_index_with_wf(
                before,
                lowercase(token.lemma),
                lowercase(token.text),
                (s as usize, (upto - 1) as usize),
            );
        }
    }
}

/// Scanning sentences keeps a well-formed index well formed.
pub proof fn lemma_sentences_wf(
    index: Seq<LemmaModel>,
    corpus: Seq<Seq<TokenModel>>,
    from: int,
    upto: int,
)
    requires
        index_wf(index),
    ensures
        index_wf(index_with_sentences(index, corpus, from, upto)),
    decreases upto - from,
{
    if upto > from {
        lemma_sentences_wf(index, corpus, from, upto - 1);
        lemma_tokens_wf(
            index_with_sentences(index, corpus, from, upto - 1),
            corpus[upto - 1],
            upto - 1,
            corpus[upto - 1].len() as int,
        );
    }
}

/// The index of a corpus is well formed: no lemma and no form of a lemma
/// stands twice, and no bucket is empty.
pub proof fn lemma_built_index_wf(corpus: Seq<Seq<TokenModel>>)
    ensures
        index_wf(built_index(corpus)),
{
    assert(lemma_keys(Seq::<LemmaModel>::empty()) =~= Seq::<Seq<char>>::empty());
    lemma_sentences_wf(Seq::empty(), corpus, 0, corpus.len() as int);
}

/// Scanning a range of sentences in two steps gives what scanning it in one
/// step gives.
pub proof fn lemma_sentences_split(
    index: Seq<LemmaModel>,
    corpus: Seq<Seq<TokenModel>>,
    from: int,
    mid: int,
    upto: int,
)
    requires
        from <= mid <= upto,
    ensures
        index_with_sentences(index, corpus, from, upto) == index_with_sentences(
            index_with_sentences(index, corpus, from, mid),
            corpus,
            mid,
            upto,
        ),
    decreases upto - mid,
{
    if mid < upto {
        lemma_sentences_split(index, corpus, from, mid, upto - 1);
    }
}

/// Scanning a range of sentences reads those sentences only.
pub proof fn lemma_sentences_agree(
    index: Seq<LemmaModel>,
    first: Seq<Seq<TokenModel>>,
    second: Seq<Seq<TokenModel>>,
    from: int,
    upto: int,
)
    requires
        0 <= from,
        upto <= first.len(),
        upto <= second.len(),
        forall|s: int| from <= s < upto ==> first[s] == second[s],
    ensures
        index_with_sentences(index, first, from, upto) == index_with_sentences(
            index,
            second,
            from,
            upto,
        ),
    decreases upto - from,
{
    if from < upto {
        lemma_sentences_agree(index, first, second, from, upto - 1);
    }
}

/// Extending the index of one part of a corpus by the rest gives the index of
/// the whole corpus.
pub proof fn lemma_extend_equals_rebuild(head: Seq<Seq<TokenModel>>, tail: Seq<Seq<TokenModel>>)
    ensures
        index_with_sentences(
            built_index(head),
            head + tail,
            head.len() as int,
            (head + tail).len() as int,
        ) == built_index(head + tail),
{
    let whole = head + tail;
    lemma_sentences_split(Seq::empty(), whole, 0, head.len() as int, whole.len() as int);
    lemma_sentences_agree(Seq::empty(), whole, head, 0, head.len() as int);
}

/// Two indexes built from the same corpus hold the same buckets in the same
/// order, each with the same occurrences in the same order.
pub proof fn lemma_rebuild_is_identical(
    first: LemmaMap,
    second: LemmaMap,
    corpus: Seq<Seq<TokenModel>>,
)
    requires
        first@ == built_index(corpus),
        second@ == built_index(corpus),
    ensures
        first@ == second@,
        forall|i: int| 0 <= i < first@.len() ==> first@[i].forms == second@[i].forms,
{
}

/// Whether a token is recorded under `lemma` and `form`: it is not
/// punctuation, and these are its lower-cased lemma and text.
pub open spec fn token_matches(token: TokenModel, lemma: Seq<char>, form: Seq<char>) -> bool {
    !is_punct(token) && lowercase(token.lemma) == lemma && lowercase(token.text) == form
}

/// The positions, in order, of the tokens among the first `upto` of sentence
/// number `s` that are recorded under `lemma` and `form`.
pub open spec fn matching_in_sentence(
    sentence: Seq<TokenModel>,
    s: int,
    upto: int,
    lemma: Seq<char>,
    form: Seq<char>,
) -> Seq<(usize, usize)>
    decreases upto,
{
    if upto <= 0 {
        Seq::empty()
    } else {
        matching_in_sentence(sentence, s, upto - 1, lemma, form) + if token_matches(
            sentence[upto - 1],
            lemma,
            form,
        ) {
            seq![(s as usize, (upto - 1) as usize)]
        } else {
            Seq::<(usize, usize)>::empty()
        }
    }
}

/// The positions, in scan order, of the tokens in the sentences `from..upto`
/// that are recorded under `lemma` and `form`.
pub open spec fn matching_in_sentences(
    corpus: Seq<Seq<TokenModel>>,
    from: int,
    upto: int,
    lemma: Seq<char>,
    form: Seq<char>,
) -> Seq<(usize, usize)>
    decreases upto - from,
{
    if upto <= from {
        Seq::empty()
    } else {
        matching_in_sentences(corpus, from, upto - 1, lemma, form) + matching_in_sentence(
            corpus[upto - 1],
            upto - 1,
            corpus[upto - 1].len() as int,
            lemma,
            form,
        )
    }
}

/// The positions, in scan order, of the tokens of the corpus that are
/// recorded under `lemma` and `form`.
pub open spec fn matching_positions(
    corpus: Seq<Seq<TokenModel>>,
    lemma: Seq<char>,
    form: Seq<char>,
) -> Seq<(usize, usize)> {
    matching_in_sentences(corpus, 0, corpus.len() as int, lemma, form)
}

/// Scanning tokens appends, to what a lookup finds, the positions of the
/// scanned tokens that are recorded under the keys looked up.
pub proof fn lemma_tokens_lookup(
    index: Seq<LemmaModel>,
    sentence: Seq<TokenModel>,
    s: int,
    upto: int,
    lemma: Seq<char>,
    form: Seq<char>,
)
    ensures
        occurrences_of(index_with_tokens(index, sentence, s, upto), lemma, form) == occurrences_of(
            index,
            lemma,
            form,
        ) + matching_in_sentence(sentence, s, upto, lemma, form),
    decreases upto,
{
    let found = occurrences_of(index, lemma, form);
    if upto <= 0 {
        assert(found + Seq::<(usize, usize)>::empty() =~= found);
    } else {
        lemma_tokens_lookup(index, sentence, s, upto - 1, lemma, form);
        let before = index_with_tokens(index, sentence, s, upto - 1);
        let token = sentence[upto - 1];
        let pos = (s as usize, (upto - 1) as usize);
        let earlier = matching_in_sentence(sentence, s, upto - 1, lemma, form);
        if is_punct(token) {
            assert(earlier + Seq::<(usize, usize)>::empty() =~= earlier);
        } else {
            lemma_index_with_lookup(
                before,
                lowercase(token.lemma),
                lowercase(token.text),
                pos,
                lemma,
                form,
            );
            if token_matches(token, lemma, form) {
                assert((found + earlier) + seq![pos] =~= found + (earlier + seq![pos]));
            } else {
                assert((found + earlier) + Seq::<(usize, usize)>::empty() =~= found + (earlier
                    + Seq::<(usize, usize)>::empty()));
            }
        }
    }
}

/// Scanning sentences appends, to what a lookup finds, the positions of the
/// scanned tokens that are recorded under the keys looked up.
pub proof fn lemma_sentences_lookup(
    index: Seq<LemmaModel>,
    corpus: Seq<Seq<TokenModel>>,
    from: int,
    upto: int,
    lemma: Seq<char>,
    form: Seq<char>,
)
    ensures
        occurrences_of(index_with_sentences(index, corpus, from, upto), lemma, form)
            == occurrences_of(index, lemma, form) + matching_in_sentences(
            corpus,
            from,
            upto,
            lemma,
            form,
        ),
    decreases upto - from,
{
    let found = occurrences_of(index, lemma, form);
    if upto <= from {
        assert(found + Seq::<(usize, usize)>::empty() =~= found);
    } else {
        lemma_sentences_lookup(index, corpus, from, upto - 1, lemma, form);
        let before = index_with_sentences(index, corpus, from, upto - 1);
        lemma_tokens_lookup(
            before,
            corpus[upto - 1],
            upto - 1,
            corpus[upto - 1].len() as int,
            lemma,
            form,
        );
        let earlier = matching_in_sentences(corpus, from, upto - 1, lemma, form);
        let here = matching_in_sentence(
            corpus[upto - 1],
            upto - 1,
            corpus[upto - 1].len() as int,
            lemma,
            form,
        );
        assert((found + earlier) + here =~= found + (earlier + here));
    }
}

/// What the index of a corpus holds for a lemma and a form are the positions
/// of exactly those tokens that are not punctuation and whose lower-cased
/// lemma and text are that lemma and that form, in scan order. So every such
/// token stands in one bucket, the one that its own lemma and text name, and
/// stands there once.
pub proof fn lemma_built_index_occurrences(
    corpus: Seq<Seq<TokenModel>>,
    lemma: Seq<char>,
    form: Seq<char>,
)
    ensures
        occurrences_of(built_index(corpus), lemma, form) == matching_positions(corpus, lemma, form),
{
    lemma_sentences_lookup(Seq::empty(), corpus, 0, corpus.len() as int, lemma, form);
    assert(lemma_keys(Seq::<LemmaModel>::empty()) =~= Seq::<Seq<char>>::empty());
    let found = matching_positions(corpus, lemma, form);
    assert(Seq::<(usize, usize)>::empty() + found =~= found);
}

/// Whether `pos` is the position of a token of the corpus that is not
/// punctuation and whose lower-cased lemma and text are `lemma` and `form`.
pub open spec fn occurrence_sound(
    corpus: Seq<Seq<TokenModel>>,
    lemma: Seq<char>,
    form: Seq<char>,
    pos: (usize, usize),
) -> bool {
    &&& pos.0 < corpus.len()
    &&& pos.1 < corpus[pos.0 as int].len()
    &&& !is_punct(corpus[pos.0 as int][pos.1 as int])
    &&& lemma == lowercase(corpus[pos.0 as int][pos.1 as int].lemma)
    &&& form == lowercase(corpus[pos.0 as int][pos.1 as int].text)
}

/// Whether every occurrence in the form buckets of `lemma` stands in the
/// bucket that its own token names.
pub open spec fn forms_sound(
    forms: Seq<FormModel>,
    corpus: Seq<Seq<TokenModel>>,
    lemma: Seq<char>,
) -> bool {
    forall|j: int, k: int|
        0 <= j < forms.len() && 0 <= k < forms[j].occurrences.len() ==> occurrence_sound(
            corpus,
            lemma,
            forms[j].form,
            #[trigger] forms[j].occurrences[k],
        )
}

/// Whether every occurrence in the index is the position of a token of the
/// corpus and stands in the bucket that this token names.
pub open spec fn index_sound(index: Seq<LemmaModel>, corpus: Seq<Seq<TokenModel>>) -> bool {
    forall|i: int|
        0 <= i < index.len() ==> forms_sound((#[trigger] index[i]).forms, corpus, index[i].lemma)
}

/// Whether every position of the corpus can be written as a pair of `usize`.
pub open spec fn corpus_addressable(corpus: Seq<Seq<TokenModel>>) -> bool {
    &&& corpus.len() <= usize::MAX
    &&& forall|s: int| 0 <= s < corpus.len() ==> (#[trigger] corpus[s]).len() <= usize::MAX
}

/// A corpus held in memory is addressable.
pub proof fn lemma_token_array_addressable(token_array: &Vec<Vec<Token>>)
    ensures
        corpus_addressable(token_array.deep_view()),
{
    let corpus = token_array.deep_view();
    assert(corpus.len() == token_array.len());
    assert forall|s: int| 0 <= s < corpus.len() implies (#[trigger] corpus[s]).len()
        <= usize::MAX by {
        assert(corpus[s] == token_array@[s].deep_view());
        assert(corpus[s].len() == token_array@[s].len());
    }
}

/// Recording a sound occurrence keeps the index sound.
pub proof fn lemma_index_with_sound(
    index: Seq<LemmaModel>,
    corpus: Seq<Seq<TokenModel>>,
    lemma: Seq<char>,
    form: Seq<char>,
    pos: (usize, usize),
)
    requires
        index_sound(index, corpus),
        occurrence_sound(corpus, lemma, form, pos),
    ensures
        index_sound(index_with(index, lemma, form, pos), corpus),
{
    let after = index_with(index, lemma, form, pos);
    lemma_key_position_from(lemma_keys(index), lemma, 0);
    match key_position(lemma_keys(index), lemma) {
        Some(i) => {
            let forms = index[i].forms;
            let grown = forms_with(forms, form, pos);
            lemma_key_position_from(form_keys(forms), form, 0);
            assert(forms_sound(forms, corpus, lemma));
            assert forall|j: int, k: int|
                0 <= j < grown.len() && 0 <= k < grown[j].occurrences.len()
                implies occurrence_sound(
                corpus,
                lemma,
                grown[j].form,
                #[trigger] grown[j].occurrences[k],
            ) by {
                match key_position(form_keys(forms), form) {
                    Some(at) => {
                        if j == at {
                            if k < forms[j].occurrences.len() {
                                assert(grown[j].occurrences[k] == forms[j].occurrences[k]);
                            }
                        } else {
                            assert(grown[j].occurrences[k] == forms[j].occurrences[k]);
                        }
                    },
                    None => {
                        if j < forms.len() {
                            assert(grown[j].occurrences[k] == forms[j].occurrences[k]);
                        }
                    },
                }
            }
            assert forall|n: int| 0 <= n < after.len() implies forms_sound(
                (#[trigger] after[n]).forms,
                corpus,
                after[n].lemma,
            ) by {
                if n != i {
                    assert(after[n] == index[n]);
                }
            }
        },
        None => {
            assert forall|n: int| 0 <= n < after.len() implies forms_sound(
                (#[trigger] after[n]).forms,
                corpus,
                after[n].lemma,
            ) by {
                if n < index.len() {
                    assert(after[n] == index[n]);
                }
            }
        },
    }
}

/// Scanning tokens of a sentence of the corpus keeps the index sound.
pub proof fn lemma_tokens_sound(
    index: Seq<LemmaModel>,
    corpus: Seq<Seq<TokenModel>>,
    s: int,
    upto: int,
)
    requires
        index_sound(index, corpus),
        corpus_addressable(corpus),
        0 <= s < corpus.len(),
        upto <= corpus[s].len(),
    ensures
        index_sound(index_with_tokens(index, corpus[s], s, upto), corpus),
    decreases upto,
{
    if upto > 0 {
        lemma_tokens_sound(index, corpus, s, upto - 1);
        let before = index_with_tokens(index, corpus[s], s, upto - 1);
        let token = corpus[s][upto - 1];
        if !is_punct(token) {
            lemma_index_with_sound(
                before,
                corpus,
                lowercase(token.lemma),
                lowercase(token.text),
                (s as usize, (upto - 1) as usize),
            );
        }
    }
}

/// Scanning sentences of the corpus keeps the index sound.
pub proof fn lemma_sentences_sound(
    index: Seq<LemmaModel>,
    corpus: Seq<Seq<TokenModel>>,
    from: int,
    upto: int,
)
    requires
        index_sound(index, corpus),
        corpus_addressable(corpus),
        0 <= from,
        upto <= corpus.len(),
    ensures
        index_sound(index_with_sentences(index, corpus, from, upto), corpus),
    decreases upto - from,
{
    if upto > from {
        lemma_sentences_sound(index, corpus, from, upto - 1);
        lemma_tokens_sound(
            index_with_sentences(index, corpus, from, upto - 1),
            corpus,
            upto - 1,
            corpus[upto - 1].len() as int,
        );
    }
}

/// Every occurrence in the index of a corpus is the position of a token of
/// that corpus which is not punctuation, and stands in the bucket named by
/// the lower-cased lemma and text of that token.
pub proof fn lemma_built_index_sound(corpus: Seq<Seq<TokenModel>>)
    requires
        corpus_addressable(corpus),
    ensures
        index_sound(built_index(corpus), corpus),
{
    lemma_sentences_sound(Seq::empty(), corpus, 0, corpus.len() as int);
}

/// Records `token`, which stands at `pos`, under its lower-cased lemma and
/// text.
pub fn add_to_map(token: &Token, pos: (usize, usize), lemma_map: &mut LemmaMap)
    ensures
        final(lemma_map)@ == index_with(
            old(lemma_map)@,
            lowercase(token@.lemma),
            lowercase(token@.text),
            pos,
        ),
        old(lemma_map).wf() ==> final(lemma_map).wf(),
{
    let lemma_key = token.lemma().to_lowercase();
    let form_key = token.text().to_lowercase();
    lemma_map.insert_occurrence(lemma_key, form_key, pos);
}

/// Scans the sentences of `token_array` from number `from` on and records
/// every token that is not punctuation. What the index held before stays.
pub fn extend_map(lemma_map: &mut LemmaMap, token_array: &Vec<Vec<Token>>, from: usize)
    requires
        from <= token_array.len(),
    ensures
        final(lemma_map)@ == index_with_sentences(
            old(lemma_map)@,
            token_array.deep_view(),
            from as int,
            token_array.len() as int,
        ),
        old(lemma_map).wf() ==> final(lemma_map).wf(),
{
    let ghost start = lemma_map@;
    let ghost corpus = token_array.deep_view();
    let mut sentence_i: usize = from;
    while sentence_i < token_array.len()
        invariant
            from <= sentence_i <= token_array.len(),
            corpus == token_array.deep_view(),
            lemma_map@ == index_with_sentences(start, corpus, from as int, sentence_i as int),
            index_wf(start) ==> lemma_map.wf(),
        decreases token_array.len() - sentence_i,
    {
        let sentence = &token_array[sentence_i];
        let ghost before = lemma_map@;
        assert(corpus[sentence_i as int] == sentence.deep_view());
        let mut token_i: usize = 0;
        while token_i < sentence.len()
            invariant
                token_i <= sentence.len(),
                corpus[sentence_i as int] == sentence.deep_view(),
                lemma_map@ == index_with_tokens(
                    before,
                    corpus[sentence_i as int],
                    sentence_i as int,
                    token_i as int,
                ),
                index_wf(start) ==> lemma_map.wf(),
            decreases sentence.len() - token_i,
        {
            let token = &sentence[token_i];
            assert(corpus[sentence_i as int][token_i as int] == token@);
            if !token.is_punct() {
                add_to_map(token, (sentence_i, token_i), lemma_map);
            }
            token_i += 1;
        }
        sentence_i += 1;
    }
}

/// Builds the index of a corpus.
pub fn map_from_array(token_array: &Vec<Vec<Token>>) -> (lemma_map: LemmaMap)
    ensures
        lemma_map@ == built_index(token_array.deep_view()),
        lemma_map.wf(),
{
    let mut lemma_map = LemmaMap::new();
    extend_map(&mut lemma_map, token_array, 0);
    lemma_map
}

/// A longer range of sentences holds at least as many words.
pub proof fn lemma_words_in_sentences_grow(
    corpus: Seq<Seq<TokenModel>>,
    from: int,
    mid: int,
    upto: int,
)
    requires
        from <= mid <= upto,
    ensures
        words_in_sentences(corpus, from, mid) <= words_in_sentences(corpus, from, upto),
    decreases upto - mid,
{
    if mid < upto {
        lemma_words_in_sentences_grow(corpus, from, mid, upto - 1);
    }
}

/// Counting a range of sentences reads those sentences only: the same
/// sentences at shifted places hold the same number of words.
pub proof fn lemma_words_in_sentences_agree(
    first: Seq<Seq<TokenModel>>,
    second: Seq<Seq<TokenModel>>,
    from: int,
    upto: int,
    shift: int,
)
    requires
        forall|s: int| from <= s < upto ==> #[trigger] first[s] == second[s + shift],
    ensures
        words_in_sentences(first, from, upto) == words_in_sentences(
            second,
            from + shift,
            upto + shift,
        ),
    decreases upto - from,
{
    if from < upto {
        lemma_words_in_sentences_agree(first, second, from, upto - 1, shift);
        assert(first[upto - 1] == second[upto - 1 + shift]);
    }
}

/// Counting a range of sentences in two steps gives what counting it in one
/// step gives.
pub proof fn lemma_words_in_sentences_split(
    corpus: Seq<Seq<TokenModel>>,
    from: int,
    mid: int,
    upto: int,
)
    requires
        from <= mid <= upto,
    ensures
        words_in_sentences(corpus, from, upto) == words_in_sentences(corpus, from, mid)
            + words_in_sentences(corpus, mid, upto),
    decreases upto - mid,
{
    if mid < upto {
        lemma_words_in_sentences_split(corpus, from, mid, upto - 1);
    }
}

/// Two corpora put together hold the words of both.
pub proof fn lemma_words_in_corpus_concat(head: Seq<Seq<TokenModel>>, tail: Seq<Seq<TokenModel>>)
    ensures
        words_in_corpus(head + tail) == words_in_corpus(head) + words_in_corpus(tail),
{
    let whole = head + tail;
    let h = head.len() as int;
    let t = tail.len() as int;
    lemma_words_in_sentences_split(whole, 0, h, h + t);
    lemma_words_in_sentences_agree(whole, head, 0, h, 0);
    lemma_words_in_sentences_agree(whole, tail, h, h + t, -h);
}

/// Counts the tokens of a corpus that are not punctuation. The count is the
/// word count that the index of the corpus will have; there is none where it
/// does not fit a `usize`.
pub fn count_words(token_array: &Vec<Vec<Token>>) -> (count: Option<usize>)
    ensures
        match count {
            Some(n) => n == words_in_corpus(token_array.deep_view()),
            None => words_in_corpus(token_array.deep_view()) > usize::MAX,
        },
{
    let ghost corpus = token_array.deep_view();
    let mut total: usize = 0;
    let mut sentence_i: usize = 0;
    while sentence_i < token_array.len()
        invariant
            sentence_i <= token_array.len(),
            corpus == token_array.deep_view(),
            total == words_in_sentences(corpus, 0, sentence_i as int),
        decreases token_array.len() - sentence_i,
    {
        let sentence = &token_array[sentence_i];
        assert(corpus[sentence_i as int] == sentence.deep_view());
        let mut words: usize = 0;
        let mut token_i: usize = 0;
        while token_i < sentence.len()
            invariant
                token_i <= sentence.len(),
                corpus[sentence_i as int] == sentence.deep_view(),
                words == words_in_sentence(corpus[sentence_i as int], token_i as int),
                words <= token_i,
            decreases sentence.len() - token_i,
        {
            assert(corpus[sentence_i as int][token_i as int] == sentence[token_i as int]@);
            if !sentence[token_i].is_punct() {
                words += 1;
            }
            token_i += 1;
        }
        match total.checked_add(words) {
            Some(sum) => {
                total = sum;
            },
            None => {
                proof {
                    lemma_words_in_sentences_grow(
                        corpus,
                        0,
                        sentence_i + 1,
                        token_array.len() as int,
                    );
                }
                return None;
            },
        }
        sentence_i += 1;
    }
    Some(total)
}

} // verus!
