//! A corpus together with its frequency index, and the ranked listings that
//! are read from the two.

pub use crate::builder::{add_to_map, count_words, extend_map, map_from_array};
pub use crate::context::{get_sentence_bolded, get_sentence_split};
pub use crate::index::{FormMap, LemmaMap, WordCount};
pub use crate::token::Token;

use crate::builder::{
    built_index, corpus_addressable, forms_sound, index_sound, lemma_built_index_counts_words,
    lemma_built_index_sound, lemma_extend_equals_rebuild, lemma_token_array_addressable,
    lemma_words_in_corpus_concat, occurrence_sound, words_in_corpus,
};
use crate::context::{context_after, context_before};
use crate::index::{
    form_keys, key_position, lemma_key_position_from, lemma_keys, occurrences_of, FormModel,
    LemmaModel,
};
use crate::rank::{form_counts, is_permutation, lemma_counts, rank_forms, rank_lemmas, ranking};
use crate::token::TokenModel;
use vstd::prelude::*;

verus! {

/// The lemmas of an index, the most frequent first.
pub open spec fn ranked_lemmas(index: Seq<LemmaModel>) -> Seq<Seq<char>> {
    Seq::new(index.len(), |k: int| index[ranking(lemma_counts(index))[k] as int].lemma)
}

/// The forms of a lemma, the most frequent first.
pub open spec fn ranked_forms(forms: Seq<FormModel>) -> Seq<Seq<char>> {
    Seq::new(forms.len(), |k: int| forms[ranking(form_counts(forms))[k] as int].form)
}

/// The sentence around the token at `pos`, in three parts: what stands before
/// the token, the token, what stands after it.
pub open spec fn usage_at(corpus: Seq<Seq<TokenModel>>, pos: (usize, usize)) -> (
    Seq<char>,
    Seq<char>,
    Seq<char>,
) {
    (
        context_before(corpus[pos.0 as int], pos.1 as int),
        corpus[pos.0 as int][pos.1 as int].text,
        context_after(corpus[pos.0 as int], pos.1 as int),
    )
}

/// The usages at a list of positions, in the order of the list.
pub open spec fn usages_at(corpus: Seq<Seq<TokenModel>>, occurrences: Seq<(usize, usize)>) -> Seq<
    (Seq<char>, Seq<char>, Seq<char>),
> {
    Seq::new(occurrences.len(), |k: int| usage_at(corpus, occurrences[k]))
}

/// Whether every position of the list is that of a token of the corpus.
pub open spec fn positions_valid(
    corpus: Seq<Seq<TokenModel>>,
    occurrences: Seq<(usize, usize)>,
) -> bool {
    forall|k: int|
        0 <= k < occurrences.len() ==> (#[trigger] occurrences[k]).0 < corpus.len()
            && occurrences[k].1 < corpus[occurrences[k].0 as int].len()
}

/// The forms of `lemma` in the index, the most frequent first; none where the
/// index does not hold the lemma.
pub open spec fn forms_of(index: Seq<LemmaModel>, lemma: Seq<char>) -> Seq<Seq<char>> {
    match key_position(lemma_keys(index), lemma) {
        Some(i) => ranked_forms(index[i].forms),
        None => Seq::empty(),
    }
}

/// The positions that a sound index holds for a lemma and a form are
/// positions of the corpus.
pub proof fn lemma_occurrences_of_valid(
    index: Seq<LemmaModel>,
    corpus: Seq<Seq<TokenModel>>,
    lemma: Seq<char>,
    form: Seq<char>,
)
    requires
        index_sound(index, corpus),
    ensures
        positions_valid(corpus, occurrences_of(index, lemma, form)),
{
    lemma_key_position_from(lemma_keys(index), lemma, 0);
    match key_position(lemma_keys(index), lemma) {
        Some(i) => {
            lemma_key_position_from(form_keys(index[i].forms), form, 0);
            assert(forms_sound(index[i].forms, corpus, index[i].lemma));
            match key_position(form_keys(index[i].forms), form) {
                Some(j) => {
                    let occurrences = index[i].forms[j].occurrences;
                    assert forall|k: int| 0 <= k < occurrences.len() implies (
                    #[trigger] occurrences[k]).0 < corpus.len() && occurrences[k].1
                        < corpus[occurrences[k].0 as int].len() by {
                        assert(occurrence_sound(
                            corpus,
                            index[i].lemma,
                            index[i].forms[j].form,
                            index[i].forms[j].occurrences[k],
                        ));
                    }
                },
                None => {},
            }
        },
        None => {},
    }
}

/// Splits the sentence around each of the given positions.
pub fn usages_from(
    token_array: &Vec<Vec<Token>>,
    occurrences: &Vec<(usize, usize)>,
) -> (usages: Vec<(String, String, String)>)
    requires
        positions_valid(token_array.deep_view(), occurrences@),
    ensures
        usages.deep_view() == usages_at(token_array.deep_view(), occurrences@),
{
    let ghost corpus = token_array.deep_view();
    let mut usages: Vec<(String, String, String)> = Vec::new();
    let mut k: usize = 0;
    while k < occurrences.len()
        invariant
            k <= occurrences.len(),
            corpus == token_array.deep_view(),
            positions_valid(corpus, occurrences@),
            usages.deep_view() == usages_at(corpus, occurrences@).take(k as int),
        decreases occurrences.len() - k,
    {
        let (sentence_i, token_i) = occurrences[k];
        assert(occurrences@[k as int].0 < corpus.len());
        assert(corpus[sentence_i as int] == token_array@[sentence_i as int].deep_view());
        let ghost before = usages.deep_view();
        let parts = get_sentence_split(token_array, sentence_i, token_i);
        usages.push(parts);
        assert(usages.deep_view() =~= before.push(usage_at(corpus, occurrences@[k as int])));
        assert(usages.deep_view() =~= usages_at(corpus, occurrences@).take(k + 1));
        k += 1;
    }
    assert(usages.deep_view() =~= usages_at(corpus, occurrences@));
    usages
}

/// An empty list of usages.
fn no_usages() -> (usages: Vec<(String, String, String)>)
    ensures
        usages.deep_view() == Seq::<(Seq<char>, Seq<char>, Seq<char>)>::empty(),
{
    let usages: Vec<(String, String, String)> = Vec::new();
    assert(usages.deep_view() =~= Seq::<(Seq<char>, Seq<char>, Seq<char>)>::empty());
    usages
}

/// The keys of the form buckets in the order of a ranking.
pub fn ranked_form_names(forms: &FormMap) -> (names: Vec<String>)
    ensures
        names.deep_view() == ranked_forms(forms@),
{
    let order = rank_forms(forms);
    let mut names: Vec<String> = Vec::new();
    let mut k: usize = 0;
    while k < order.len()
        invariant
            k <= order.len(),
            order@ == ranking(form_counts(forms@)),
            is_permutation(order@, forms@.len()),
            names.deep_view() == ranked_forms(forms@).take(k as int),
        decreases order.len() - k,
    {
        let ghost before = names.deep_view();
        names.push(forms.form(order[k]).to_owned());
        assert(names.deep_view() =~= before.push(forms@[order@[k as int] as int].form));
        assert(names.deep_view() =~= ranked_forms(forms@).take(k + 1));
        k += 1;
    }
    assert(names.deep_view() =~= ranked_forms(forms@));
    names
}

/// A corpus and its frequency index.
pub struct Lemmatizer {
    tokens: Vec<Vec<Token>>,
    lemma_map: LemmaMap,
}

impl Lemmatizer {
    /// The corpus loaded so far.
    pub closed spec fn corpus(&self) -> Seq<Seq<TokenModel>> {
        self.tokens.deep_view()
    }

    /// The index held.
    pub closed spec fn index(&self) -> Seq<LemmaModel> {
        self.lemma_map@
    }

    /// The index held is the index of the corpus loaded so far, and its words
    /// can be counted.
    pub open spec fn wf(&self) -> bool {
        &&& self.index() == built_index(self.corpus())
        &&& words_in_corpus(self.corpus()) <= usize::MAX
        &&& corpus_addressable(self.corpus())
    }

    /// A lemmatizer with nothing loaded.
    pub fn new() -> (lemmatizer: Lemmatizer)
        ensures
            lemmatizer.corpus() == Seq::<Seq<TokenModel>>::empty(),
            lemmatizer.wf(),
    {
        let lemmatizer = Lemmatizer { tokens: Vec::new(), lemma_map: LemmaMap::new() };
        assert(lemmatizer.corpus() =~= Seq::<Seq<TokenModel>>::empty());
        lemmatizer
    }

    /// Whether the sentences read from one more file can be taken in: whether
    /// the words of the enlarged corpus can still be counted.
    pub fn can_load(&self, sentences: &Vec<Vec<Token>>) -> (fits: bool)
        requires
            self.wf(),
        ensures
            fits == (words_in_corpus(self.corpus() + sentences.deep_view()) <= usize::MAX),
    {
        proof {
            lemma_built_index_counts_words(self.corpus());
            lemma_words_in_corpus_concat(self.corpus(), sentences.deep_view());
        }
        let held = self.lemma_map.word_count();
        match count_words(sentences) {
            Some(more) => more <= usize::MAX - held,
            None => false,
        }
    }

    /// Takes in the sentences read from one more file. They come behind the
    /// sentences loaded before, and the index grows by their tokens.
    pub fn load_file(&mut self, sentences: Vec<Vec<Token>>)
        requires
            old(self).wf(),
            words_in_corpus(old(self).corpus() + sentences.deep_view()) <= usize::MAX,
        ensures
            final(self).corpus() == old(self).corpus() + sentences.deep_view(),
            final(self).wf(),
    {
        let ghost head = self.corpus();
        let ghost tail = sentences.deep_view();
        let first_new = self.tokens.len();
        let mut sentences = sentences;
        self.tokens.append(&mut sentences);
        assert(self.tokens.deep_view() =~= head + tail);
        extend_map(&mut self.lemma_map, &self.tokens, first_new);
        proof {
            lemma_extend_equals_rebuild(head, tail);
            lemma_token_array_addressable(&self.tokens);
        }
    }

    /// The sentences loaded so far.
    pub fn tokens(&self) -> (token_array: &Vec<Vec<Token>>)
        ensures
            token_array.deep_view() == self.corpus(),
    {
        &self.tokens
    }

    /// The index of the sentences loaded so far.
    pub fn lemma_map(&self) -> (lemma_map: &LemmaMap)
        ensures
            lemma_map@ == self.index(),
    {
        &self.lemma_map
    }

    /// The lemmas of the corpus, the most frequent first.
    pub fn get_lemmas(&self) -> (lemmas: Vec<String>)
        requires
            self.wf(),
        ensures
            lemmas.deep_view() == ranked_lemmas(self.index()),
    {
        proof {
            lemma_built_index_counts_words(self.corpus());
        }
        let order = rank_lemmas(&self.lemma_map);
        let ghost index = self.lemma_map@;
        let mut lemmas: Vec<String> = Vec::new();
        let mut k: usize = 0;
        while k < order.len()
            invariant
                k <= order.len(),
                index == self.lemma_map@,
                order@ == ranking(lemma_counts(index)),
                is_permutation(order@, index.len()),
                lemmas.deep_view() == ranked_lemmas(index).take(k as int),
            decreases order.len() - k,
        {
            let ghost before = lemmas.deep_view();
            lemmas.push(self.lemma_map.lemma(order[k]).to_owned());
            assert(lemmas.deep_view() =~= before.push(index[order@[k as int] as int].lemma));
            assert(lemmas.deep_view() =~= ranked_lemmas(index).take(k + 1));
            k += 1;
        }
        assert(lemmas.deep_view() =~= ranked_lemmas(index));
        lemmas
    }

    /// The forms of `lemma`, the most frequent first. The lemma is looked up
    /// as it is written; one that the index does not hold has no forms.
    pub fn get_forms(&self, lemma: &str) -> (forms: Vec<String>)
        ensures
            forms.deep_view() == forms_of(self.index(), lemma@),
    {
        match self.lemma_map.get(lemma) {
            Some(map) => ranked_form_names(map),
            None => {
                let forms: Vec<String> = Vec::new();
                assert(forms.deep_view() =~= Seq::<Seq<char>>::empty());
                forms
            },
        }
    }

    /// The sentences in which `form` occurs under `lemma`, each split around
    /// the occurrence, in scan order. Both keys are looked up as they are
    /// written; a pair that the index does not hold has no usages.
    pub fn get_usages(&self, lemma: &str, form: &str) -> (usages: Vec<(String, String, String)>)
        requires
            self.wf(),
        ensures
            usages.deep_view() == usages_at(
                self.corpus(),
                occurrences_of(self.index(), lemma@, form@),
            ),
    {
        proof {
            lemma_built_index_sound(self.corpus());
            lemma_occurrences_of_valid(self.index(), self.corpus(), lemma@, form@);
        }
        match self.lemma_map.get(lemma) {
            Some(map) => match map.get(form) {
                Some(occurrences) => usages_from(&self.tokens, occurrences),
                None => no_usages(),
            },
            None => no_usages(),
        }
    }
}

} // verus!
